//! What there is to draw, by node.

use crate::paint::{Paint, Size};
use std::collections::{BTreeMap, BTreeSet};
use std::sync::Arc;
use vstd::prelude::*;

verus! {

broadcast use {vstd::std_specs::btree::group_btree_axioms, vstd::laws_cmp::group_laws_cmp};

/// The id of a node of the document.
pub type NodeId = usize;

/// A map by node that remembers in which order keys were inserted.
#[derive(Debug)]
pub struct TrackedMap<V> {
    map: BTreeMap<NodeId, V>,
    order: Vec<NodeId>,
}

/// A map by node, and every key ever inserted, in order.
pub ghost struct TrackedModel<V> {
    pub map: Map<NodeId, V>,
    pub order: Seq<NodeId>,
}

impl<V> TrackedModel<V> {
    /// Whether the keys of the map are those that were inserted.
    pub open spec fn consistent(self) -> bool {
        forall|key: NodeId| #[trigger] self.order.contains(key) <==> self.map.contains_key(key)
    }
}

impl<V> View for TrackedMap<V> {
    type V = TrackedModel<V>;

    closed spec fn view(&self) -> TrackedModel<V> {
        TrackedModel { map: self.map@, order: self.order@ }
    }
}

impl<V> Default for TrackedMap<V> {
    fn default() -> (r: Self)
        ensures
            r@.map == Map::<NodeId, V>::empty(),
            r@.order == Seq::<NodeId>::empty(),
            r@.consistent(),
    {
        TrackedMap { map: BTreeMap::new(), order: Vec::new() }
    }
}

/// Whether a map has the keys of another and clones of its values.
pub open spec fn cloned_map<V: Clone>(a: Map<NodeId, V>, b: Map<NodeId, V>) -> bool {
    &&& a.dom() == b.dom()
    &&& forall|key: NodeId| #[trigger] a.contains_key(key) ==> cloned(a[key], b[key])
}

impl<V: Clone> Clone for TrackedMap<V> {
    fn clone(&self) -> (r: Self)
        ensures
            cloned_map(self@.map, r@.map),
            r@.order == self@.order,
            self@.consistent() ==> r@.consistent(),
    {
        let r = TrackedMap { map: self.map.clone(), order: self.order.clone() };
        assert(r@.order =~= self@.order);
        r
    }
}

impl<V> std::ops::Deref for TrackedMap<V> {
    type Target = BTreeMap<NodeId, V>;

    fn deref(&self) -> (r: &BTreeMap<NodeId, V>)
        ensures
            r@ == self@.map,
    {
        &self.map
    }
}

/// `BTreeMap::get_mut`: the value under a key, to be changed in place.
#[verifier::external_body]
fn value_mut<V>(map: &mut BTreeMap<NodeId, V>, key: NodeId) -> (r: Option<&mut V>)
    ensures
        match r {
            Some(value) => old(map)@.contains_key(key) && *value == old(map)@[key] && final(map)@ == old(map)@.insert(
                key,
                *final(value),
            ),
            None => !old(map)@.contains_key(key) && final(map)@ == old(map)@,
        },
{
    map.get_mut(&key)
}

impl<V> TrackedMap<V> {
    /// Inserts a value and returns the one that it takes the place of.
    pub fn insert(&mut self, key: NodeId, value: V) -> (r: Option<V>)
        ensures
            final(self)@.map == old(self)@.map.insert(key, value),
            final(self)@.order == old(self)@.order.push(key),
            r == if old(self)@.map.contains_key(key) {
                Some(old(self)@.map[key])
            } else {
                None
            },
            old(self)@.consistent() ==> final(self)@.consistent(),
    {
        self.order.push(key);
        let r = self.map.insert(key, value);
        proof {
            let before = old(self)@.order;
            let after = self@.order;
            if old(self)@.consistent() {
                assert forall|k: NodeId| #[trigger] after.contains(k) <==> self@.map.contains_key(k) by {
                    assert(before.contains(k) <==> old(self)@.map.contains_key(k));
                    if before.contains(k) {
                        assert(after[before.index_of(k)] == k);
                    }
                    if k == key {
                        assert(after[before.len() as int] == k);
                    }
                    if after.contains(k) && k != key {
                        assert(before[after.index_of(k)] == k);
                    }
                }
            }
        }
        r
    }

    /// The value under a key, to be changed in place. No key is added.
    pub fn get_mut(&mut self, key: &NodeId) -> (r: Option<&mut V>)
        ensures
            match r {
                Some(value) => old(self)@.map.contains_key(*key) && *value == old(self)@.map[*key] && final(self)@.map
                    == old(self)@.map.insert(*key, *final(value)),
                None => !old(self)@.map.contains_key(*key) && final(self)@.map == old(self)@.map,
            },
            final(self)@.order == old(self)@.order,
            old(self)@.consistent() ==> final(self)@.consistent(),
    {
        value_mut(&mut self.map, *key)
    }

    /// How many insertions there were.
    fn mark(&self) -> (r: usize)
        ensures
            r == self@.order.len(),
    {
        self.order.len()
    }

    /// The keys inserted since a mark, in order.
    fn since(&self, mark: usize) -> (r: &[NodeId])
        requires
            mark <= self@.order.len(),
        ensures
            r@ == self@.order.skip(mark as int),
    {
        let r = vstd::slice::slice_subrange(self.order.as_slice(), mark, self.order.len());
        assert(r@ =~= self@.order.skip(mark as int));
        r
    }
}

/// The keys inserted between two states of a map that only grew are those that
/// the later state has and the earlier has not, if none of them was there
/// before.
pub proof fn law_new_keys_are_the_difference<V>(earlier: TrackedModel<V>, later: TrackedModel<V>)
    requires
        earlier.consistent(),
        later.consistent(),
        earlier.order.len() <= later.order.len(),
        later.order.take(earlier.order.len() as int) == earlier.order,
        forall|key: NodeId| #[trigger]
            later.order.skip(earlier.order.len() as int).contains(key) ==> !earlier.map.contains_key(key),
    ensures
        forall|key: NodeId|
            later.order.skip(earlier.order.len() as int).contains(key) <==> (later.map.contains_key(key)
                && !earlier.map.contains_key(key)),
{
    let n = earlier.order.len() as int;
    let tail = later.order.skip(n);
    assert forall|key: NodeId| tail.contains(key) <==> (later.map.contains_key(key) && !earlier.map.contains_key(key)) by {
        assert(later.order.contains(key) <==> later.map.contains_key(key));
        assert(earlier.order.contains(key) <==> earlier.map.contains_key(key));
        if tail.contains(key) {
            let i = tail.index_of(key);
            assert(later.order[n + i] == key);
        }
        if later.map.contains_key(key) && !earlier.map.contains_key(key) {
            let i = later.order.index_of(key);
            if i < n {
                assert(earlier.order[i] == key);
            } else {
                assert(tail[i - n] == key);
            }
        }
    }
}

/// How far each map had been filled at some point.
#[derive(Debug, Clone, Copy)]
pub struct DrawMark {
    block_styles: usize,
    paragraphs: usize,
    images: usize,
    svgs: usize,
    tables: usize,
    list_items: usize,
}

/// How many insertions each map had seen.
pub ghost struct DrawMarkModel {
    pub block_styles: nat,
    pub paragraphs: nat,
    pub images: nat,
    pub svgs: nat,
    pub tables: nat,
    pub list_items: nat,
}

impl View for DrawMark {
    type V = DrawMarkModel;

    closed spec fn view(&self) -> DrawMarkModel {
        DrawMarkModel {
            block_styles: self.block_styles as nat,
            paragraphs: self.paragraphs as nat,
            images: self.images as nat,
            svgs: self.svgs as nat,
            tables: self.tables as nat,
            list_items: self.list_items as nat,
        }
    }
}

/// A block: its box, and the nodes that are drawn inside its clip or its
/// opacity group.
#[derive(Debug, Clone)]
pub struct BlockEntry<P: Paint> {
    pub style: P::Style,
    pub opacity: P::Opacity,
    pub visible: bool,
    pub id: Option<Arc<String>>,
    pub layout_size: Option<Size<P::Length>>,
    pub clip_descendants: Vec<NodeId>,
    pub opacity_descendants: Vec<NodeId>,
}

/// A paragraph, its lines shaped.
#[derive(Debug, Clone)]
pub struct ParagraphEntry<P: Paint> {
    pub lines: Vec<P::Line>,
    pub opacity: P::Opacity,
    pub visible: bool,
    pub id: Option<Arc<String>>,
}

/// A raster image.
#[derive(Debug, Clone)]
pub struct ImageEntry<P: Paint> {
    pub image_data: Arc<Vec<u8>>,
    pub format: P::Encoding,
    pub width: P::Length,
    pub height: P::Length,
    pub opacity: P::Opacity,
    pub visible: bool,
}

/// A vector image.
#[derive(Debug, Clone)]
pub struct SvgEntry<P: Paint> {
    pub tree: P::Tree,
    pub width: P::Length,
    pub height: P::Length,
    pub opacity: P::Opacity,
    pub visible: bool,
}

/// The outer frame of a table.
#[derive(Debug, Clone)]
pub struct TableEntry<P: Paint> {
    pub style: P::Style,
    pub opacity: P::Opacity,
    pub visible: bool,
    pub id: Option<Arc<String>>,
    pub layout_size: Option<Size<P::Length>>,
    pub width: P::Length,
    pub cached_height: P::Length,
    pub clip_descendants: Vec<NodeId>,
}

/// The image of a list marker.
#[derive(Debug, Clone)]
pub enum ImageMarker<P: Paint> {
    Raster(ImageEntry<P>),
    Svg(SvgEntry<P>),
}

/// The marker of a list item.
#[derive(Debug, Clone)]
pub enum ListItemMarker<P: Paint> {
    Text { lines: Vec<P::Line>, width: P::Length },
    Image { marker: ImageMarker<P>, width: P::Length, height: P::Length },
    /// No marker, as on the pages after the first.
    Absent,
}

/// A list item's marker, and the line height that it is centred in.
#[derive(Debug, Clone)]
pub struct ListItemEntry<P: Paint> {
    pub marker: ListItemMarker<P>,
    pub marker_line_height: P::Length,
    pub opacity: P::Opacity,
    pub visible: bool,
}

/// Where the columns of a group are.
#[derive(Debug, Clone)]
pub struct ColumnRuleGeometry<P: Paint> {
    pub x_offset: P::Length,
    pub y_offset: P::Length,
    pub col_w: P::Length,
    pub gap: P::Length,
    pub n: u32,
    pub col_heights: Vec<P::Length>,
}

/// The rules between the columns of a container.
#[derive(Debug, Clone)]
pub struct MulticolRuleEntry<P: Paint> {
    pub rule: P::Rule,
    pub groups: Vec<ColumnRuleGeometry<P>>,
}

/// A paragraph that is spread over columns.
#[derive(Debug, Clone)]
pub struct ParagraphSlicesEntry<P: Paint> {
    pub container_node_id: NodeId,
    pub slices: Vec<ParagraphSlice<P>>,
}

impl<P: Paint> Default for ParagraphSlicesEntry<P> {
    fn default() -> (r: Self)
        ensures
            r.container_node_id == 0,
            r.slices@ == Seq::<ParagraphSlice<P>>::empty(),
    {
        ParagraphSlicesEntry { container_node_id: 0, slices: Vec::new() }
    }
}

/// The part of a paragraph that stands in one column.
#[derive(Debug)]
pub struct ParagraphSlice<P: Paint> {
    pub origin_pt: (P::Length, P::Length),
    pub size_pt: (P::Length, P::Length),
    pub lines: Vec<P::Line>,
}

impl<P: Paint> Clone for ParagraphSlice<P> {
    fn clone(&self) -> (r: Self)
        ensures
            cloned(self.origin_pt.0, r.origin_pt.0) && cloned(self.origin_pt.1, r.origin_pt.1),
            cloned(self.size_pt.0, r.size_pt.0) && cloned(self.size_pt.1, r.size_pt.1),
            r.lines@.len() == self.lines@.len(),
            forall|i: int| 0 <= i < self.lines@.len() ==> cloned(#[trigger] self.lines@[i], r.lines@[i]),
    {
        ParagraphSlice {
            origin_pt: (self.origin_pt.0.clone(), self.origin_pt.1.clone()),
            size_pt: (self.size_pt.0.clone(), self.size_pt.1.clone()),
            lines: self.lines.clone(),
        }
    }
}

/// A transformation, and the nodes that are drawn under it.
#[derive(Debug, Clone)]
pub struct TransformEntry<P: Paint> {
    pub matrix: P::Matrix,
    pub origin: P::Point,
    pub descendants: Vec<NodeId>,
}

/// An entry of the document's outline.
#[derive(Debug, Clone)]
pub struct BookmarkAnchorEntry {
    pub level: u8,
    pub label: String,
}

/// A link over text.
#[derive(Debug, Clone, Default)]
pub struct LinkSpanEntry;

/// All that there is to draw.
#[derive(Debug)]
pub struct Drawables<P: Paint> {
    pub body_offset_pt: (P::Length, P::Length),
    pub root_dir_rtl: bool,
    pub root_id: Option<NodeId>,
    pub body_id: Option<NodeId>,
    pub block_styles: TrackedMap<BlockEntry<P>>,
    pub paragraphs: TrackedMap<ParagraphEntry<P>>,
    pub paragraph_slices: BTreeMap<NodeId, ParagraphSlicesEntry<P>>,
    pub images: TrackedMap<ImageEntry<P>>,
    pub svgs: TrackedMap<SvgEntry<P>>,
    pub tables: TrackedMap<TableEntry<P>>,
    pub list_items: TrackedMap<ListItemEntry<P>>,
    pub multicol_rules: BTreeMap<NodeId, MulticolRuleEntry<P>>,
    pub transforms: BTreeMap<NodeId, TransformEntry<P>>,
    pub bookmark_anchors: BTreeMap<NodeId, BookmarkAnchorEntry>,
    pub link_spans: Vec<(NodeId, LinkSpanEntry)>,
    pub semantics: BTreeMap<NodeId, P::Role>,
    pub inline_box_subtree_skip: BTreeSet<NodeId>,
    pub inline_box_subtree_descendants: BTreeMap<NodeId, Vec<NodeId>>,
    /// The id that the next node without a counterpart in the document gets.
    pub synthetic_id_counter: usize,
    pub li_lbl_ids: BTreeMap<NodeId, NodeId>,
    pub li_lbody_ids: BTreeMap<NodeId, NodeId>,
}

/// Whether ids are in ascending order, none twice.
pub open spec fn ascending(ids: Seq<NodeId>) -> bool {
    forall|i: int, j: int| 0 <= i < j < ids.len() ==> ids[i] < ids[j]
}

/// Merges two ascending lists.
fn merge(a: &Vec<NodeId>, b: &Vec<NodeId>) -> (r: Vec<NodeId>)
    requires
        ascending(a@),
        ascending(b@),
    ensures
        ascending(r@),
        forall|id: NodeId| r@.contains(id) <==> (a@.contains(id) || b@.contains(id)),
{
    let mut r: Vec<NodeId> = Vec::new();
    let mut i: usize = 0;
    let mut j: usize = 0;
    while i < a.len() || j < b.len()
        invariant
            i <= a@.len(),
            j <= b@.len(),
            ascending(a@),
            ascending(b@),
            ascending(r@),
            forall|k: int| 0 <= k < r@.len() && i < a@.len() ==> #[trigger] r@[k] < a@[i as int],
            forall|k: int| 0 <= k < r@.len() && j < b@.len() ==> #[trigger] r@[k] < b@[j as int],
            forall|k: int| 0 <= k < r@.len() ==> a@.contains(#[trigger] r@[k]) || b@.contains(r@[k]),
            forall|k: int| 0 <= k < i ==> r@.contains(#[trigger] a@[k]),
            forall|k: int| 0 <= k < j ==> r@.contains(#[trigger] b@[k]),
        decreases a@.len() - i + b@.len() - j,
    {
        let ghost before = r@;
        if j >= b.len() || (i < a.len() && a[i] < b[j]) {
            r.push(a[i]);
            i = i + 1;
        } else if i >= a.len() || b[j] < a[i] {
            r.push(b[j]);
            j = j + 1;
        } else {
            r.push(a[i]);
            i = i + 1;
            j = j + 1;
        }
        proof {
            assert(r@.last() == r@[before.len() as int]);
            assert forall|id: NodeId| before.contains(id) implies r@.contains(id) by {
                let k = before.index_of(id);
                assert(r@[k] == id);
            }
            assert(r@.contains(r@[before.len() as int]));
        }
    }
    proof {
        assert forall|id: NodeId| r@.contains(id) <==> (a@.contains(id) || b@.contains(id)) by {
            if r@.contains(id) {
                let k = r@.index_of(id);
                assert(r@[k] == id);
            }
            if a@.contains(id) {
                let k = a@.index_of(id);
                assert(r@.contains(a@[k]));
            }
            if b@.contains(id) {
                let k = b@.index_of(id);
                assert(r@.contains(b@[k]));
            }
        }
    }
    r
}

/// The ids of a list in ascending order, none twice.
fn sorted_unique(ids: &[NodeId]) -> (r: Vec<NodeId>)
    ensures
        ascending(r@),
        forall|id: NodeId| r@.contains(id) <==> ids@.contains(id),
    decreases ids@.len(),
{
    let n: usize = ids.len();
    if n == 0 {
        return Vec::new();
    }
    if n == 1 {
        let mut r: Vec<NodeId> = Vec::new();
        r.push(ids[0]);
        assert(r@ =~= ids@);
        return r;
    }
    let half: usize = n / 2;
    let left = vstd::slice::slice_subrange(ids, 0, half);
    let right = vstd::slice::slice_subrange(ids, half, n);
    let r = merge(&sorted_unique(left), &sorted_unique(right));
    proof {
        assert forall|id: NodeId| ids@.contains(id) <==> (left@.contains(id) || right@.contains(id)) by {
            if ids@.contains(id) {
                let k = ids@.index_of(id);
                if k < half {
                    assert(left@[k] == id);
                } else {
                    assert(right@[k - half] == id);
                }
            }
            if left@.contains(id) {
                let k = left@.index_of(id);
                assert(ids@[k] == id);
            }
            if right@.contains(id) {
                let k = right@.index_of(id);
                assert(ids@[half + k] == id);
            }
        }
    }
    r
}

impl<P: Paint> Default for Drawables<P> {
    fn default() -> (r: Self)
        ensures
            r.fresh(),
    {
        Drawables::new()
    }
}

fn duplicate_spans(spans: &Vec<(NodeId, LinkSpanEntry)>) -> (r: Vec<(NodeId, LinkSpanEntry)>)
    ensures
        r@ == spans@,
{
    let mut r: Vec<(NodeId, LinkSpanEntry)> = Vec::new();
    let mut i: usize = 0;
    while i < spans.len()
        invariant
            i <= spans@.len(),
            r@ =~= spans@.take(i as int),
        decreases spans@.len() - i,
    {
        assert(spans@[i as int].1 == LinkSpanEntry);
        r.push((spans[i].0, LinkSpanEntry));
        i = i + 1;
    }
    r
}

impl<P: Paint + Clone> Clone for Drawables<P> {
    fn clone(&self) -> (r: Self)
        ensures
            cloned(self.body_offset_pt.0, r.body_offset_pt.0),
            cloned(self.body_offset_pt.1, r.body_offset_pt.1),
            r.root_dir_rtl == self.root_dir_rtl && r.root_id == self.root_id && r.body_id == self.body_id,
            cloned_map(self.block_styles@.map, r.block_styles@.map),
            cloned_map(self.paragraphs@.map, r.paragraphs@.map),
            cloned_map(self.paragraph_slices@, r.paragraph_slices@),
            cloned_map(self.images@.map, r.images@.map),
            cloned_map(self.svgs@.map, r.svgs@.map),
            cloned_map(self.tables@.map, r.tables@.map),
            cloned_map(self.list_items@.map, r.list_items@.map),
            r.block_styles@.order == self.block_styles@.order,
            r.paragraphs@.order == self.paragraphs@.order,
            r.images@.order == self.images@.order,
            r.svgs@.order == self.svgs@.order,
            r.tables@.order == self.tables@.order,
            r.list_items@.order == self.list_items@.order,
            cloned_map(self.multicol_rules@, r.multicol_rules@),
            cloned_map(self.transforms@, r.transforms@),
            cloned_map(self.bookmark_anchors@, r.bookmark_anchors@),
            r.link_spans@ == self.link_spans@,
            cloned_map(self.semantics@, r.semantics@),
            r.inline_box_subtree_skip@ == self.inline_box_subtree_skip@,
            cloned_map(self.inline_box_subtree_descendants@, r.inline_box_subtree_descendants@),
            r.synthetic_id_counter == self.synthetic_id_counter,
            r.li_lbl_ids@ == self.li_lbl_ids@ && r.li_lbody_ids@ == self.li_lbody_ids@,
    {
        Drawables {
            body_offset_pt: (self.body_offset_pt.0.clone(), self.body_offset_pt.1.clone()),
            root_dir_rtl: self.root_dir_rtl,
            root_id: self.root_id,
            body_id: self.body_id,
            block_styles: self.block_styles.clone(),
            paragraphs: self.paragraphs.clone(),
            paragraph_slices: self.paragraph_slices.clone(),
            images: self.images.clone(),
            svgs: self.svgs.clone(),
            tables: self.tables.clone(),
            list_items: self.list_items.clone(),
            multicol_rules: self.multicol_rules.clone(),
            transforms: self.transforms.clone(),
            bookmark_anchors: self.bookmark_anchors.clone(),
            link_spans: duplicate_spans(&self.link_spans),
            semantics: self.semantics.clone(),
            inline_box_subtree_skip: self.inline_box_subtree_skip.clone(),
            inline_box_subtree_descendants: self.inline_box_subtree_descendants.clone(),
            synthetic_id_counter: self.synthetic_id_counter,
            li_lbl_ids: self.li_lbl_ids.clone(),
            li_lbody_ids: self.li_lbody_ids.clone(),
        }
    }
}

impl<P: Paint> Drawables<P> {
    /// Nothing to draw.
    pub fn new() -> (r: Self)
        ensures
            r.fresh(),
    {
        Drawables {
            body_offset_pt: (P::Length::default(), P::Length::default()),
            root_dir_rtl: false,
            root_id: None,
            body_id: None,
            block_styles: TrackedMap::default(),
            paragraphs: TrackedMap::default(),
            paragraph_slices: BTreeMap::new(),
            images: TrackedMap::default(),
            svgs: TrackedMap::default(),
            tables: TrackedMap::default(),
            list_items: TrackedMap::default(),
            multicol_rules: BTreeMap::new(),
            transforms: BTreeMap::new(),
            bookmark_anchors: BTreeMap::new(),
            link_spans: Vec::new(),
            semantics: BTreeMap::new(),
            inline_box_subtree_skip: BTreeSet::new(),
            inline_box_subtree_descendants: BTreeMap::new(),
            synthetic_id_counter: usize::MAX / 2,
            li_lbl_ids: BTreeMap::new(),
            li_lbody_ids: BTreeMap::new(),
        }
    }

    /// Whether nothing was ever put in.
    pub open spec fn fresh(self) -> bool {
        &&& call_ensures(P::Length::default, (), self.body_offset_pt.0)
        &&& call_ensures(P::Length::default, (), self.body_offset_pt.1)
        &&& !self.root_dir_rtl
        &&& self.root_id is None
        &&& self.body_id is None
        &&& self.nothing()
        &&& self.marks() == DrawMarkModel {
            block_styles: 0,
            paragraphs: 0,
            images: 0,
            svgs: 0,
            tables: 0,
            list_items: 0,
        }
        &&& self.inline_box_subtree_skip@ == Set::<NodeId>::empty()
        &&& self.inline_box_subtree_descendants@ == Map::<NodeId, Vec<NodeId>>::empty()
        &&& self.synthetic_id_counter == usize::MAX / 2
        &&& self.li_lbl_ids@ == Map::<NodeId, NodeId>::empty()
        &&& self.li_lbody_ids@ == Map::<NodeId, NodeId>::empty()
    }

    /// How many insertions each map has seen.
    pub open spec fn marks(self) -> DrawMarkModel {
        DrawMarkModel {
            block_styles: self.block_styles@.order.len(),
            paragraphs: self.paragraphs@.order.len(),
            images: self.images@.order.len(),
            svgs: self.svgs@.order.len(),
            tables: self.tables@.order.len(),
            list_items: self.list_items@.order.len(),
        }
    }

    /// Whether a mark was taken of these drawables, at some earlier point.
    pub open spec fn marked_by(self, mark: DrawMarkModel) -> bool {
        &&& mark.block_styles <= self.block_styles@.order.len()
        &&& mark.paragraphs <= self.paragraphs@.order.len()
        &&& mark.images <= self.images@.order.len()
        &&& mark.svgs <= self.svgs@.order.len()
        &&& mark.tables <= self.tables@.order.len()
        &&& mark.list_items <= self.list_items@.order.len()
    }

    /// Whether a node was inserted into any map after a mark.
    pub open spec fn inserted_since(self, mark: DrawMarkModel, id: NodeId) -> bool {
        ||| self.block_styles@.order.skip(mark.block_styles as int).contains(id)
        ||| self.paragraphs@.order.skip(mark.paragraphs as int).contains(id)
        ||| self.images@.order.skip(mark.images as int).contains(id)
        ||| self.svgs@.order.skip(mark.svgs as int).contains(id)
        ||| self.tables@.order.skip(mark.tables as int).contains(id)
        ||| self.list_items@.order.skip(mark.list_items as int).contains(id)
    }

    /// Whether nothing is registered for any node.
    pub open spec fn nothing(self) -> bool {
        &&& self.block_styles@.map.dom().is_empty()
        &&& self.paragraphs@.map.dom().is_empty()
        &&& self.paragraph_slices@.dom().is_empty()
        &&& self.images@.map.dom().is_empty()
        &&& self.svgs@.map.dom().is_empty()
        &&& self.tables@.map.dom().is_empty()
        &&& self.list_items@.map.dom().is_empty()
        &&& self.multicol_rules@.dom().is_empty()
        &&& self.transforms@.dom().is_empty()
        &&& self.bookmark_anchors@.dom().is_empty()
        &&& self.link_spans@.len() == 0
        &&& self.semantics@.dom().is_empty()
    }

    /// Marks how far the maps are filled.
    pub fn draw_mark(&self) -> (r: DrawMark)
        ensures
            r@ == self.marks(),
    {
        DrawMark {
            block_styles: self.block_styles.mark(),
            paragraphs: self.paragraphs.mark(),
            images: self.images.mark(),
            svgs: self.svgs.mark(),
            tables: self.tables.mark(),
            list_items: self.list_items.mark(),
        }
    }

    /// The nodes inserted since a mark, in ascending order, none twice.
    pub fn drawn_since(&self, mark: DrawMark) -> (r: Vec<NodeId>)
        requires
            self.marked_by(mark@),
        ensures
            ascending(r@),
            forall|id: NodeId| r@.contains(id) <==> self.inserted_since(mark@, id),
    {
        let blocks = sorted_unique(self.block_styles.since(mark.block_styles));
        let paragraphs = sorted_unique(self.paragraphs.since(mark.paragraphs));
        let images = sorted_unique(self.images.since(mark.images));
        let svgs = sorted_unique(self.svgs.since(mark.svgs));
        let tables = sorted_unique(self.tables.since(mark.tables));
        let items = sorted_unique(self.list_items.since(mark.list_items));
        merge(&merge(&merge(&blocks, &paragraphs), &merge(&images, &svgs)), &merge(&tables, &items))
    }

    /// The lowest paragraph inserted since a mark.
    pub fn min_paragraph_since(&self, mark: DrawMark) -> (r: Option<NodeId>)
        requires
            self.marked_by(mark@),
        ensures
            ({
                let new = self.paragraphs@.order.skip(mark@.paragraphs as int);
                match r {
                    Some(id) => new.contains(id) && forall|other: NodeId| new.contains(other) ==> id <= other,
                    None => new.len() == 0,
                }
            }),
    {
        let new = self.paragraphs.since(mark.paragraphs);
        if new.len() == 0 {
            return None;
        }
        let mut least: NodeId = new[0];
        let mut i: usize = 1;
        while i < new.len()
            invariant
                1 <= i <= new@.len(),
                new@.contains(least),
                forall|k: int| 0 <= k < i ==> least <= #[trigger] new@[k],
            decreases new@.len() - i,
        {
            if new[i] < least {
                least = new[i];
            }
            i = i + 1;
        }
        Some(least)
    }

    /// An id for a node without a counterpart in the document. They descend
    /// from half the largest id there can be, and stay at the lowest once it
    /// is reached.
    pub fn alloc_synthetic_id(&mut self) -> (r: NodeId)
        ensures
            r == old(self).synthetic_id_counter,
            final(self).synthetic_id_counter == if r > 0 {
                r - 1
            } else {
                0
            },
            *final(self) == (Drawables { synthetic_id_counter: final(self).synthetic_id_counter, ..*old(self) }),
    {
        let id: usize = self.synthetic_id_counter;
        self.synthetic_id_counter = id.saturating_sub(1);
        id
    }

    /// Whether nothing is registered for any node. The offset of the body does
    /// not count.
    pub fn is_empty(&self) -> (r: bool)
        ensures
            r == self.nothing(),
    {
        self.block_styles.map.is_empty() && self.paragraphs.map.is_empty() && self.paragraph_slices.is_empty()
            && self.images.map.is_empty() && self.svgs.map.is_empty() && self.tables.map.is_empty()
            && self.list_items.map.is_empty() && self.multicol_rules.is_empty() && self.transforms.is_empty()
            && self.bookmark_anchors.is_empty() && self.link_spans.is_empty() && self.semantics.is_empty()
    }
}

/// Whatever is registered for a node, there is something to draw.
pub proof fn law_something_is_not_nothing<P: Paint>(d: Drawables<P>, id: NodeId)
    requires
        d.block_styles@.map.contains_key(id) || d.paragraphs@.map.contains_key(id) || d.paragraph_slices@.contains_key(id)
            || d.images@.map.contains_key(id) || d.svgs@.map.contains_key(id) || d.tables@.map.contains_key(id)
            || d.list_items@.map.contains_key(id) || d.multicol_rules@.contains_key(id) || d.transforms@.contains_key(id)
            || d.bookmark_anchors@.contains_key(id) || d.link_spans@.len() > 0 || d.semantics@.contains_key(id),
    ensures
        !d.nothing(),
{
}

/// Where nothing is registered for any node, there is nothing to draw.
pub proof fn law_nothing_is_nothing<P: Paint>(d: Drawables<P>)
    requires
        forall|id: NodeId| #![trigger d.block_styles@.map.contains_key(id)]
            !(d.block_styles@.map.contains_key(id) || d.paragraphs@.map.contains_key(id) || d.paragraph_slices@.contains_key(id)
                || d.images@.map.contains_key(id) || d.svgs@.map.contains_key(id) || d.tables@.map.contains_key(id)
                || d.list_items@.map.contains_key(id) || d.multicol_rules@.contains_key(id) || d.transforms@.contains_key(id)
                || d.bookmark_anchors@.contains_key(id) || d.semantics@.contains_key(id)),
        d.link_spans@.len() == 0,
    ensures
        d.nothing(),
{
    assert forall|id: NodeId| !(d.block_styles@.map.dom().contains(id) || d.paragraphs@.map.dom().contains(id)
        || #[trigger] d.paragraph_slices@.dom().contains(id) || d.images@.map.dom().contains(id) || d.svgs@.map.dom().contains(id)
        || d.tables@.map.dom().contains(id) || d.list_items@.map.dom().contains(id) || d.multicol_rules@.dom().contains(id)
        || d.transforms@.dom().contains(id) || d.bookmark_anchors@.dom().contains(id) || d.semantics@.dom().contains(id)) by {
        assert(!d.block_styles@.map.contains_key(id));
    }
    assert(d.block_styles@.map.dom() =~= Set::empty());
    assert(d.paragraphs@.map.dom() =~= Set::empty());
    assert(d.paragraph_slices@.dom() =~= Set::empty());
    assert(d.images@.map.dom() =~= Set::empty());
    assert(d.svgs@.map.dom() =~= Set::empty());
    assert(d.tables@.map.dom() =~= Set::empty());
    assert(d.list_items@.map.dom() =~= Set::empty());
    assert(d.multicol_rules@.dom() =~= Set::empty());
    assert(d.transforms@.dom() =~= Set::empty());
    assert(d.bookmark_anchors@.dom() =~= Set::empty());
    assert(d.semantics@.dom() =~= Set::empty());
}

/// A node that is inserted into any of the maps after a mark was taken counts as drawn
/// since, and where nothing was inserted none does.
pub proof fn law_marks_tell_what_is_new<P: Paint>(earlier: Drawables<P>, later: Drawables<P>, id: NodeId)
    ensures
        ({
            let mark = earlier.marks();
            let inserted = later.block_styles@.order == earlier.block_styles@.order.push(id) || later.paragraphs@.order
                == earlier.paragraphs@.order.push(id) || later.images@.order == earlier.images@.order.push(id)
                || later.svgs@.order == earlier.svgs@.order.push(id) || later.tables@.order == earlier.tables@.order.push(id)
                || later.list_items@.order == earlier.list_items@.order.push(id);
            inserted ==> later.inserted_since(mark, id)
        }),
        !earlier.inserted_since(earlier.marks(), id),
{
    let mark = earlier.marks();
    assert(later.block_styles@.order == earlier.block_styles@.order.push(id) ==> later.block_styles@.order.skip(
        mark.block_styles as int,
    )[0] == id);
    assert(later.paragraphs@.order == earlier.paragraphs@.order.push(id) ==> later.paragraphs@.order.skip(
        mark.paragraphs as int,
    )[0] == id);
    assert(later.images@.order == earlier.images@.order.push(id) ==> later.images@.order.skip(mark.images as int)[0] == id);
    assert(later.svgs@.order == earlier.svgs@.order.push(id) ==> later.svgs@.order.skip(mark.svgs as int)[0] == id);
    assert(later.tables@.order == earlier.tables@.order.push(id) ==> later.tables@.order.skip(mark.tables as int)[0] == id);
    assert(later.list_items@.order == earlier.list_items@.order.push(id) ==> later.list_items@.order.skip(
        mark.list_items as int,
    )[0] == id);
}

} // verus!
