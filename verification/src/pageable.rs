//! The tree of what a page shows, and the order in which it is drawn.

use crate::drawables::{ColumnRuleGeometry, ListItemMarker};
use crate::gcpm::CounterOp;
use crate::paint::{Paint, Size};
use std::sync::Arc;
use vstd::prelude::*;

verus! {

/// A part of a page.
pub enum Pageable<P: Paint> {
    Block(BlockPageable<P>),
    Spacer(SpacerPageable<P>),
    BookmarkMarker(BookmarkMarkerPageable),
    BookmarkMarkerWrapper(BookmarkMarkerWrapperPageable<P>),
    StringSet(StringSetPageable),
    RunningElementMarker(RunningElementMarkerPageable),
    CounterOpMarker(CounterOpMarkerPageable),
    CounterOpWrapper(CounterOpWrapperPageable<P>),
    TransformWrapper(TransformWrapperPageable<P>),
    StringSetWrapper(StringSetWrapperPageable<P>),
    RunningElementWrapper(RunningElementWrapperPageable<P>),
    MulticolRule(MulticolRulePageable<P>),
    ListItem(ListItemPageable<P>),
    Table(TablePageable<P>),
    Leaf(P::Leaf, Option<usize>),
}

/// A child at its place in its parent.
pub struct PositionedChild<P: Paint> {
    pub child: Box<Pageable<P>>,
    pub x: P::Length,
    pub y: P::Length,
    pub height: P::Length,
    /// Whether the child takes no part in its parent's flow.
    pub out_of_flow: bool,
    /// Whether the child stays at its place on every page.
    pub is_fixed: bool,
}

impl<P: Paint> PositionedChild<P> {
    /// A child in its parent's flow.
    pub fn in_flow(child: Box<Pageable<P>>, x: P::Length, y: P::Length) -> (r: Self)
        ensures
            r.child == child && r.x == x && r.y == y,
            call_ensures(P::Length::default, (), r.height),
            !r.out_of_flow && !r.is_fixed,
    {
        PositionedChild { child, x, y, height: P::Length::default(), out_of_flow: false, is_fixed: false }
    }

    /// A child placed in a containing block.
    pub fn out_of_flow(child: Box<Pageable<P>>, x: P::Length, y: P::Length) -> (r: Self)
        ensures
            r.child == child && r.x == x && r.y == y,
            call_ensures(P::Length::default, (), r.height),
            r.out_of_flow && !r.is_fixed,
    {
        PositionedChild { child, x, y, height: P::Length::default(), out_of_flow: true, is_fixed: false }
    }

    /// A child placed on the page itself.
    pub fn fixed(child: Box<Pageable<P>>, x: P::Length, y: P::Length) -> (r: Self)
        ensures
            r.child == child && r.x == x && r.y == y,
            call_ensures(P::Length::default, (), r.height),
            r.out_of_flow && r.is_fixed,
    {
        PositionedChild { child, x, y, height: P::Length::default(), out_of_flow: true, is_fixed: true }
    }
}

/// A block with its children.
pub struct BlockPageable<P: Paint> {
    pub children: Vec<PositionedChild<P>>,
    pub cached_size: Option<Size<P::Length>>,
    /// The size that the layout gave; it goes before `cached_size`.
    pub layout_size: Option<Size<P::Length>>,
    pub style: P::Style,
    pub opacity: P::Opacity,
    pub visible: bool,
    pub id: Option<Arc<String>>,
    pub node_id: Option<usize>,
}

impl<P: Paint> BlockPageable<P> {
    /// Whether a block is fully opaque, visible, and without style, size and
    /// ids.
    pub open spec fn plain(self) -> bool {
        &&& self.cached_size is None
        &&& self.layout_size is None
        &&& call_ensures(P::Style::default, (), self.style)
        &&& call_ensures(P::Opacity::default, (), self.opacity)
        &&& self.visible
        &&& self.id is None
        &&& self.node_id is None
    }

    /// A plain block with its children in its flow, each at its corner.
    pub fn new(children: Vec<Box<Pageable<P>>>) -> (r: Self)
        ensures
            r.plain(),
            r.children@.len() == children@.len(),
            forall|i: int|
                0 <= i < children@.len() ==> {
                    let c = #[trigger] r.children@[i];
                    &&& c.child == children@[i]
                    &&& call_ensures(P::Length::default, (), c.x)
                    &&& call_ensures(P::Length::default, (), c.y)
                    &&& call_ensures(P::Length::default, (), c.height)
                    &&& !c.out_of_flow
                    &&& !c.is_fixed
                },
    {
        let mut placed: Vec<PositionedChild<P>> = Vec::new();
        let ghost given = children@;
        let mut rest: Vec<Box<Pageable<P>>> = children;
        while rest.len() > 0
            invariant
                placed@.len() + rest@.len() == given.len(),
                rest@ == given.skip(placed@.len() as int),
                forall|i: int|
                    0 <= i < placed@.len() ==> {
                        let c = #[trigger] placed@[i];
                        &&& c.child == given[i]
                        &&& call_ensures(P::Length::default, (), c.x)
                        &&& call_ensures(P::Length::default, (), c.y)
                        &&& call_ensures(P::Length::default, (), c.height)
                        &&& !c.out_of_flow
                        &&& !c.is_fixed
                    },
            decreases rest@.len(),
        {
            let child: Box<Pageable<P>> = rest.remove(0);
            placed.push(PositionedChild::in_flow(child, P::Length::default(), P::Length::default()));
        }
        BlockPageable::with_positioned_children(placed)
    }

    /// A plain block with its children where they are.
    pub fn with_positioned_children(children: Vec<PositionedChild<P>>) -> (r: Self)
        ensures
            r.plain(),
            r.children == children,
    {
        BlockPageable {
            children,
            cached_size: None,
            layout_size: None,
            style: P::Style::default(),
            opacity: P::Opacity::default(),
            visible: true,
            id: None,
            node_id: None,
        }
    }

    pub fn with_style(self, style: P::Style) -> (r: Self)
        ensures
            r == (BlockPageable { style, ..self }),
    {
        BlockPageable { style, ..self }
    }

    pub fn with_opacity(self, opacity: P::Opacity) -> (r: Self)
        ensures
            r == (BlockPageable { opacity, ..self }),
    {
        BlockPageable { opacity, ..self }
    }

    pub fn with_visible(self, visible: bool) -> (r: Self)
        ensures
            r == (BlockPageable { visible, ..self }),
    {
        BlockPageable { visible, ..self }
    }

    pub fn with_id(self, id: Option<Arc<String>>) -> (r: Self)
        ensures
            r == (BlockPageable { id, ..self }),
    {
        BlockPageable { id, ..self }
    }

    pub fn with_node_id(self, node_id: Option<usize>) -> (r: Self)
        ensures
            r == (BlockPageable { node_id, ..self }),
    {
        BlockPageable { node_id, ..self }
    }
}

/// Space of a fixed height.
#[derive(Clone)]
pub struct SpacerPageable<P: Paint> {
    pub height: P::Length,
    pub node_id: Option<usize>,
}

impl<P: Paint> SpacerPageable<P> {
    pub fn new(height: P::Length) -> (r: Self)
        ensures
            r.height == height,
            r.node_id is None,
    {
        SpacerPageable { height, node_id: None }
    }

    pub fn with_node_id(self, node_id: Option<usize>) -> (r: Self)
        ensures
            r == (SpacerPageable { node_id, ..self }),
    {
        SpacerPageable { node_id, ..self }
    }
}

/// A place in the outline.
#[derive(Clone)]
pub struct BookmarkEntry<L> {
    pub page_idx: usize,
    pub y_pt: L,
    pub level: u8,
    pub label: String,
}

/// The places of the outline, in the order in which they are drawn.
#[derive(Clone)]
pub struct BookmarkCollector<L> {
    entries: Vec<BookmarkEntry<L>>,
    current_page: usize,
}

pub ghost struct BookmarkModel<L> {
    pub page_idx: usize,
    pub y_pt: L,
    pub level: u8,
    pub label: Seq<char>,
}

impl<L> View for BookmarkEntry<L> {
    type V = BookmarkModel<L>;

    open spec fn view(&self) -> BookmarkModel<L> {
        BookmarkModel { page_idx: self.page_idx, y_pt: self.y_pt, level: self.level, label: self.label@ }
    }
}

impl<L> BookmarkCollector<L> {
    /// The places collected so far.
    pub closed spec fn collected(self) -> Seq<BookmarkModel<L>> {
        crate::model::views(self.entries@)
    }

    /// The page being drawn.
    pub closed spec fn page(self) -> usize {
        self.current_page
    }

    pub fn new() -> (r: Self)
        ensures
            r.collected() == Seq::<BookmarkModel<L>>::empty(),
            r.page() == 0,
    {
        let r = BookmarkCollector { entries: Vec::new(), current_page: 0 };
        assert(r.collected() =~= Seq::<BookmarkModel<L>>::empty());
        r
    }

    pub fn set_current_page(&mut self, page_idx: usize)
        ensures
            final(self).page() == page_idx,
            final(self).collected() == old(self).collected(),
    {
        self.current_page = page_idx;
    }

    /// Adds a place on the page being drawn.
    pub fn record(&mut self, level: u8, label: String, y: L)
        ensures
            final(self).page() == old(self).page(),
            final(self).collected() == old(self).collected().push(
                BookmarkModel { page_idx: old(self).page(), y_pt: y, level, label: label@ },
            ),
    {
        self.entries.push(BookmarkEntry { page_idx: self.current_page, y_pt: y, level, label });
        assert(self.collected() =~= old(self).collected().push(
            BookmarkModel { page_idx: old(self).page(), y_pt: y, level, label: label@ },
        ));
    }

    pub fn into_entries(self) -> (r: Vec<BookmarkEntry<L>>)
        ensures
            crate::model::views(r@) == self.collected(),
    {
        self.entries
    }
}

/// A mark that its place is in the outline.
#[derive(Clone)]
pub struct BookmarkMarkerPageable {
    pub level: u8,
    pub label: String,
}

impl BookmarkMarkerPageable {
    pub fn new(level: u8, label: String) -> (r: Self)
        ensures
            r.level == level,
            r.label == label,
    {
        BookmarkMarkerPageable { level, label }
    }

    /// Adds the mark's place to the outline, if one is collected.
    pub fn record_if_collecting<L>(&self, y: L, collector: Option<&mut BookmarkCollector<L>>)
        ensures
            match collector {
                Some(c) => {
                    &&& final(c).page() == c.page()
                    &&& final(c).collected() == c.collected().push(
                        BookmarkModel { page_idx: c.page(), y_pt: y, level: self.level, label: self.label@ },
                    )
                },
                None => true,
            },
    {
        if let Some(c) = collector {
            c.record(self.level, self.label.clone(), y);
        }
    }
}

/// A part with the mark that stays with its beginning.
pub struct BookmarkMarkerWrapperPageable<P: Paint> {
    pub marker: BookmarkMarkerPageable,
    pub child: Box<Pageable<P>>,
}

impl<P: Paint> BookmarkMarkerWrapperPageable<P> {
    pub fn new(marker: BookmarkMarkerPageable, child: Box<Pageable<P>>) -> (r: Self)
        ensures
            r.marker == marker,
            r.child == child,
    {
        BookmarkMarkerWrapperPageable { marker, child }
    }
}

/// A mark that a named string changes.
#[derive(Clone)]
pub struct StringSetPageable {
    pub name: String,
    pub value: String,
}

impl StringSetPageable {
    pub fn new(name: String, value: String) -> (r: Self)
        ensures
            r.name == name,
            r.value == value,
    {
        StringSetPageable { name, value }
    }
}

/// A mark that a running element stood here.
#[derive(Clone)]
pub struct RunningElementMarkerPageable {
    pub name: String,
    pub instance_id: usize,
}

impl RunningElementMarkerPageable {
    pub fn new(name: String, instance_id: usize) -> (r: Self)
        ensures
            r.name == name,
            r.instance_id == instance_id,
    {
        RunningElementMarkerPageable { name, instance_id }
    }
}

/// A mark that counters change.
#[derive(Debug, Clone)]
pub struct CounterOpMarkerPageable {
    pub ops: Vec<CounterOp>,
}

impl CounterOpMarkerPageable {
    pub fn new(ops: Vec<CounterOp>) -> (r: Self)
        ensures
            r.ops == ops,
    {
        CounterOpMarkerPageable { ops }
    }
}

/// A part with the changes of counters that stay with its beginning.
pub struct CounterOpWrapperPageable<P: Paint> {
    pub ops: Vec<CounterOp>,
    pub child: Box<Pageable<P>>,
}

impl<P: Paint> CounterOpWrapperPageable<P> {
    pub fn new(ops: Vec<CounterOp>, child: Box<Pageable<P>>) -> (r: Self)
        ensures
            r.ops == ops,
            r.child == child,
    {
        CounterOpWrapperPageable { ops, child }
    }
}

/// A part under a transformation about a point of its box.
pub struct TransformWrapperPageable<P: Paint> {
    pub inner: Box<Pageable<P>>,
    pub matrix: P::Matrix,
    pub origin: P::Point,
}

impl<P: Paint> TransformWrapperPageable<P> {
    pub fn new(inner: Box<Pageable<P>>, matrix: P::Matrix, origin: P::Point) -> (r: Self)
        ensures
            r.inner == inner,
            r.matrix == matrix,
            r.origin == origin,
    {
        TransformWrapperPageable { inner, matrix, origin }
    }
}

/// A part with the named strings that stay with its beginning.
pub struct StringSetWrapperPageable<P: Paint> {
    pub markers: Vec<StringSetPageable>,
    pub child: Box<Pageable<P>>,
}

impl<P: Paint> StringSetWrapperPageable<P> {
    pub fn new(markers: Vec<StringSetPageable>, child: Box<Pageable<P>>) -> (r: Self)
        ensures
            r.markers == markers,
            r.child == child,
    {
        StringSetWrapperPageable { markers, child }
    }
}

/// A part with the running elements that stay with its beginning.
pub struct RunningElementWrapperPageable<P: Paint> {
    pub markers: Vec<RunningElementMarkerPageable>,
    pub child: Box<Pageable<P>>,
}

impl<P: Paint> RunningElementWrapperPageable<P> {
    pub fn new(markers: Vec<RunningElementMarkerPageable>, child: Box<Pageable<P>>) -> (r: Self)
        ensures
            r.markers == markers,
            r.child == child,
    {
        RunningElementWrapperPageable { markers, child }
    }
}

/// Columns with rules between them.
pub struct MulticolRulePageable<P: Paint> {
    pub child: Box<Pageable<P>>,
    pub rule: P::Rule,
    pub groups: Vec<ColumnRuleGeometry<P>>,
}

impl<P: Paint> MulticolRulePageable<P> {
    pub fn new(child: Box<Pageable<P>>, rule: P::Rule, groups: Vec<ColumnRuleGeometry<P>>) -> (r: Self)
        ensures
            r.child == child,
            r.rule == rule,
            r.groups == groups,
    {
        MulticolRulePageable { child, rule, groups }
    }
}

/// A list item with its marker beside it.
pub struct ListItemPageable<P: Paint> {
    pub marker: ListItemMarker<P>,
    pub marker_line_height: P::Length,
    pub body: Box<Pageable<P>>,
    pub style: P::Style,
    pub width: P::Length,
    pub height: P::Length,
    pub opacity: P::Opacity,
    pub visible: bool,
    pub node_id: Option<usize>,
}

/// A table, whose header comes again on each page.
pub struct TablePageable<P: Paint> {
    pub header_cells: Vec<PositionedChild<P>>,
    pub body_cells: Vec<PositionedChild<P>>,
    pub header_height: P::Length,
    pub style: P::Style,
    pub layout_size: Option<Size<P::Length>>,
    pub width: P::Length,
    pub cached_height: P::Length,
    pub opacity: P::Opacity,
    pub visible: bool,
    pub id: Option<Arc<String>>,
    pub node_id: Option<usize>,
}

impl<P: Paint> Pageable<P> {
    /// The node that a part stands for. A wrapper stands for what it wraps,
    /// and a mark for no node.
    pub open spec fn node(self) -> Option<usize>
        decreases self,
    {
        match self {
            Pageable::Block(p) => p.node_id,
            Pageable::Spacer(p) => p.node_id,
            Pageable::BookmarkMarker(_) => None,
            Pageable::BookmarkMarkerWrapper(p) => p.child.node(),
            Pageable::StringSet(_) => None,
            Pageable::RunningElementMarker(_) => None,
            Pageable::CounterOpMarker(_) => None,
            Pageable::CounterOpWrapper(p) => p.child.node(),
            Pageable::TransformWrapper(p) => p.inner.node(),
            Pageable::StringSetWrapper(p) => p.child.node(),
            Pageable::RunningElementWrapper(p) => p.child.node(),
            Pageable::MulticolRule(p) => p.child.node(),
            Pageable::ListItem(p) => p.node_id,
            Pageable::Table(p) => p.node_id,
            Pageable::Leaf(_, id) => id,
        }
    }

    /// The node that a part stands for.
    pub fn node_id(&self) -> (r: Option<usize>)
        ensures
            r == self.node(),
        decreases self,
    {
        match self {
            Pageable::Block(p) => p.node_id,
            Pageable::Spacer(p) => p.node_id,
            Pageable::BookmarkMarker(_) => None,
            Pageable::BookmarkMarkerWrapper(p) => p.child.node_id(),
            Pageable::StringSet(_) => None,
            Pageable::RunningElementMarker(_) => None,
            Pageable::CounterOpMarker(_) => None,
            Pageable::CounterOpWrapper(p) => p.child.node_id(),
            Pageable::TransformWrapper(p) => p.inner.node_id(),
            Pageable::StringSetWrapper(p) => p.child.node_id(),
            Pageable::RunningElementWrapper(p) => p.child.node_id(),
            Pageable::MulticolRule(p) => p.child.node_id(),
            Pageable::ListItem(p) => p.node_id,
            Pageable::Table(p) => p.node_id,
            Pageable::Leaf(_, id) => *id,
        }
    }
}

} // verus!
