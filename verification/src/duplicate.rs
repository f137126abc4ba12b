//! Copies of the parts of a page.

use crate::drawables::{ColumnRuleGeometry, ImageEntry, ImageMarker, ListItemMarker, SvgEntry};
use crate::gcpm::CounterOp;
use crate::model::{group_views, views};
use crate::multicol::{MulticolPageable, MulticolProps, Segment};
use crate::pageable::{
    BlockPageable, BookmarkMarkerPageable, BookmarkMarkerWrapperPageable, CounterOpMarkerPageable,
    CounterOpWrapperPageable, ListItemPageable, MulticolRulePageable, Pageable, PositionedChild,
    RunningElementMarkerPageable, RunningElementWrapperPageable, SpacerPageable, StringSetPageable,
    StringSetWrapperPageable, TablePageable, TransformWrapperPageable,
};
use crate::paint::{Paint, Size};
use std::sync::Arc;
use vstd::prelude::*;

verus! {

broadcast use group_views;

/// Whether a list holds clones of the items of another.
pub open spec fn same_items<T: Clone>(a: Seq<T>, b: Seq<T>) -> bool {
    &&& a.len() == b.len()
    &&& forall|i: int| 0 <= i < a.len() ==> cloned(#[trigger] a[i], b[i])
}

/// Whether sizes are both unknown or one is a clone of the other.
pub open spec fn same_size<L: Clone>(a: Option<Size<L>>, b: Option<Size<L>>) -> bool {
    match (a, b) {
        (Some(x), Some(y)) => cloned(x.width, y.width) && cloned(x.height, y.height),
        (None, None) => true,
        _ => false,
    }
}

/// Whether a group of columns is a copy of another.
pub open spec fn same_group<P: Paint>(a: ColumnRuleGeometry<P>, b: ColumnRuleGeometry<P>) -> bool {
    &&& cloned(a.x_offset, b.x_offset) && cloned(a.y_offset, b.y_offset)
    &&& cloned(a.col_w, b.col_w) && cloned(a.gap, b.gap)
    &&& a.n == b.n
    &&& same_items(a.col_heights@, b.col_heights@)
}

/// Whether groups of columns are copies of others.
pub open spec fn same_groups<P: Paint>(a: Seq<ColumnRuleGeometry<P>>, b: Seq<ColumnRuleGeometry<P>>) -> bool {
    &&& a.len() == b.len()
    &&& forall|i: int| 0 <= i < a.len() ==> same_group(#[trigger] a[i], b[i])
}

/// Whether an image beside a list item is a copy of another.
pub open spec fn same_image<P: Paint>(a: ImageMarker<P>, b: ImageMarker<P>) -> bool {
    match (a, b) {
        (ImageMarker::Raster(x), ImageMarker::Raster(y)) => {
            &&& x.image_data == y.image_data
            &&& cloned(x.format, y.format)
            &&& cloned(x.width, y.width) && cloned(x.height, y.height)
            &&& cloned(x.opacity, y.opacity)
            &&& x.visible == y.visible
        },
        (ImageMarker::Svg(x), ImageMarker::Svg(y)) => {
            &&& cloned(x.tree, y.tree)
            &&& cloned(x.width, y.width) && cloned(x.height, y.height)
            &&& cloned(x.opacity, y.opacity)
            &&& x.visible == y.visible
        },
        _ => false,
    }
}

/// Whether a marker beside a list item is a copy of another.
pub open spec fn same_marker<P: Paint>(a: ListItemMarker<P>, b: ListItemMarker<P>) -> bool {
    match (a, b) {
        (ListItemMarker::Text { lines: x, width: v }, ListItemMarker::Text { lines: y, width: w }) => {
            same_items(x@, y@) && cloned(v, w)
        },
        (
            ListItemMarker::Image { marker: x, width: v, height: s },
            ListItemMarker::Image { marker: y, width: w, height: t },
        ) => same_image(x, y) && cloned(v, w) && cloned(s, t),
        (ListItemMarker::Absent, ListItemMarker::Absent) => true,
        _ => false,
    }
}

/// Whether the marks of named strings are copies of others.
pub open spec fn same_strings(a: Seq<StringSetPageable>, b: Seq<StringSetPageable>) -> bool {
    &&& a.len() == b.len()
    &&& forall|i: int| 0 <= i < a.len() ==> (#[trigger] a[i]).name@ == b[i].name@ && a[i].value@ == b[i].value@
}

/// Whether the marks of running elements are copies of others.
pub open spec fn same_elements(a: Seq<RunningElementMarkerPageable>, b: Seq<RunningElementMarkerPageable>) -> bool {
    &&& a.len() == b.len()
    &&& forall|i: int|
        0 <= i < a.len() ==> (#[trigger] a[i]).name@ == b[i].name@ && a[i].instance_id == b[i].instance_id
}

/// Whether children from the `k`-th on are copies of others at the same places.
pub open spec fn same_children<P: Paint>(a: Seq<PositionedChild<P>>, b: Seq<PositionedChild<P>>, k: int) -> bool
    decreases a, 0int, a.len() - k,
{
    if k < 0 || k >= a.len() {
        a.len() == b.len()
    } else {
        &&& same_place(a[k], b[k])
        &&& same_part(*a[k].child, *b[k].child)
        &&& same_children(a, b, k + 1)
    }
}

/// Whether a child has a clone of the place of another.
pub open spec fn same_place<P: Paint>(a: PositionedChild<P>, b: PositionedChild<P>) -> bool {
    &&& cloned(a.x, b.x) && cloned(a.y, b.y) && cloned(a.height, b.height)
    &&& a.out_of_flow == b.out_of_flow
    &&& a.is_fixed == b.is_fixed
}

/// Whether a part is a copy of another: of the same shape, with the same marks
/// and ids, and with clones of all that only a renderer reads.
pub open spec fn same_part<P: Paint>(a: Pageable<P>, b: Pageable<P>) -> bool
    decreases a, 1int, 0int,
{
    match (a, b) {
        (Pageable::Block(x), Pageable::Block(y)) => {
            &&& same_children(x.children@, y.children@, 0)
            &&& same_size(x.cached_size, y.cached_size) && same_size(x.layout_size, y.layout_size)
            &&& cloned(x.style, y.style) && cloned(x.opacity, y.opacity)
            &&& x.visible == y.visible && x.id == y.id && x.node_id == y.node_id
        },
        (Pageable::Spacer(x), Pageable::Spacer(y)) => cloned(x.height, y.height) && x.node_id == y.node_id,
        (Pageable::BookmarkMarker(x), Pageable::BookmarkMarker(y)) => x.level == y.level && x.label@ == y.label@,
        (Pageable::BookmarkMarkerWrapper(x), Pageable::BookmarkMarkerWrapper(y)) => {
            &&& x.marker.level == y.marker.level && x.marker.label@ == y.marker.label@
            &&& same_part(*x.child, *y.child)
        },
        (Pageable::StringSet(x), Pageable::StringSet(y)) => x.name@ == y.name@ && x.value@ == y.value@,
        (Pageable::RunningElementMarker(x), Pageable::RunningElementMarker(y)) => {
            x.name@ == y.name@ && x.instance_id == y.instance_id
        },
        (Pageable::CounterOpMarker(x), Pageable::CounterOpMarker(y)) => views(x.ops@) == views(y.ops@),
        (Pageable::CounterOpWrapper(x), Pageable::CounterOpWrapper(y)) => {
            views(x.ops@) == views(y.ops@) && same_part(*x.child, *y.child)
        },
        (Pageable::TransformWrapper(x), Pageable::TransformWrapper(y)) => {
            &&& same_part(*x.inner, *y.inner)
            &&& cloned(x.matrix, y.matrix) && cloned(x.origin, y.origin)
        },
        (Pageable::StringSetWrapper(x), Pageable::StringSetWrapper(y)) => {
            same_strings(x.markers@, y.markers@) && same_part(*x.child, *y.child)
        },
        (Pageable::RunningElementWrapper(x), Pageable::RunningElementWrapper(y)) => {
            same_elements(x.markers@, y.markers@) && same_part(*x.child, *y.child)
        },
        (Pageable::MulticolRule(x), Pageable::MulticolRule(y)) => {
            &&& same_part(*x.child, *y.child)
            &&& cloned(x.rule, y.rule)
            &&& same_groups(x.groups@, y.groups@)
        },
        (Pageable::ListItem(x), Pageable::ListItem(y)) => {
            &&& same_marker(x.marker, y.marker)
            &&& cloned(x.marker_line_height, y.marker_line_height)
            &&& same_part(*x.body, *y.body)
            &&& cloned(x.style, y.style) && cloned(x.opacity, y.opacity)
            &&& cloned(x.width, y.width) && cloned(x.height, y.height)
            &&& x.visible == y.visible && x.node_id == y.node_id
        },
        (Pageable::Table(x), Pageable::Table(y)) => {
            &&& same_children(x.header_cells@, y.header_cells@, 0)
            &&& same_children(x.body_cells@, y.body_cells@, 0)
            &&& cloned(x.header_height, y.header_height)
            &&& cloned(x.style, y.style) && cloned(x.opacity, y.opacity)
            &&& same_size(x.layout_size, y.layout_size)
            &&& cloned(x.width, y.width) && cloned(x.cached_height, y.cached_height)
            &&& x.visible == y.visible && x.id == y.id && x.node_id == y.node_id
        },
        (Pageable::Leaf(x, i), Pageable::Leaf(y, j)) => cloned(x, y) && i == j,
        _ => false,
    }
}

fn copy_size<L: Clone>(size: &Option<Size<L>>) -> (r: Option<Size<L>>)
    ensures
        same_size(*size, r),
{
    match size {
        Some(s) => Some(Size { width: s.width.clone(), height: s.height.clone() }),
        None => None,
    }
}

fn copy_id(id: &Option<Arc<String>>) -> (r: Option<Arc<String>>)
    ensures
        r == *id,
{
    match id {
        Some(id) => Some(id.clone()),
        None => None,
    }
}

fn copy_ops(ops: &Vec<CounterOp>) -> (r: Vec<CounterOp>)
    ensures
        views(r@) == views(ops@),
{
    let mut r: Vec<CounterOp> = Vec::new();
    let mut i: usize = 0;
    while i < ops.len()
        invariant
            i <= ops@.len(),
            views(r@) =~= views(ops@).take(i as int),
        decreases ops@.len() - i,
    {
        r.push(ops[i].duplicate());
        i = i + 1;
    }
    r
}

fn copy_groups<P: Paint>(groups: &Vec<ColumnRuleGeometry<P>>) -> (r: Vec<ColumnRuleGeometry<P>>)
    ensures
        same_groups(groups@, r@),
{
    let mut r: Vec<ColumnRuleGeometry<P>> = Vec::new();
    let mut i: usize = 0;
    while i < groups.len()
        invariant
            i == r@.len() <= groups@.len(),
            forall|j: int| 0 <= j < i ==> same_group(#[trigger] groups@[j], r@[j]),
        decreases groups@.len() - i,
    {
        let g: &ColumnRuleGeometry<P> = &groups[i];
        r.push(
            ColumnRuleGeometry {
                x_offset: g.x_offset.clone(),
                y_offset: g.y_offset.clone(),
                col_w: g.col_w.clone(),
                gap: g.gap.clone(),
                n: g.n,
                col_heights: g.col_heights.clone(),
            },
        );
        i = i + 1;
    }
    r
}

fn copy_marker<P: Paint>(marker: &ListItemMarker<P>) -> (r: ListItemMarker<P>)
    ensures
        same_marker(*marker, r),
{
    match marker {
        ListItemMarker::Text { lines, width } => ListItemMarker::Text { lines: lines.clone(), width: width.clone() },
        ListItemMarker::Image { marker, width, height } => {
            let image = match marker {
                ImageMarker::Raster(e) => ImageMarker::Raster(
                    ImageEntry {
                        image_data: e.image_data.clone(),
                        format: e.format.clone(),
                        width: e.width.clone(),
                        height: e.height.clone(),
                        opacity: e.opacity.clone(),
                        visible: e.visible,
                    },
                ),
                ImageMarker::Svg(e) => ImageMarker::Svg(
                    SvgEntry {
                        tree: e.tree.clone(),
                        width: e.width.clone(),
                        height: e.height.clone(),
                        opacity: e.opacity.clone(),
                        visible: e.visible,
                    },
                ),
            };
            ListItemMarker::Image { marker: image, width: width.clone(), height: height.clone() }
        },
        ListItemMarker::Absent => ListItemMarker::Absent,
    }
}

fn copy_strings(markers: &Vec<StringSetPageable>) -> (r: Vec<StringSetPageable>)
    ensures
        same_strings(markers@, r@),
{
    let mut r: Vec<StringSetPageable> = Vec::new();
    let mut i: usize = 0;
    while i < markers.len()
        invariant
            i == r@.len() <= markers@.len(),
            forall|j: int|
                0 <= j < i ==> (#[trigger] markers@[j]).name@ == r@[j].name@ && markers@[j].value@ == r@[j].value@,
        decreases markers@.len() - i,
    {
        r.push(StringSetPageable { name: markers[i].name.clone(), value: markers[i].value.clone() });
        i = i + 1;
    }
    r
}

fn copy_elements(markers: &Vec<RunningElementMarkerPageable>) -> (r: Vec<RunningElementMarkerPageable>)
    ensures
        same_elements(markers@, r@),
{
    let mut r: Vec<RunningElementMarkerPageable> = Vec::new();
    let mut i: usize = 0;
    while i < markers.len()
        invariant
            i == r@.len() <= markers@.len(),
            forall|j: int|
                0 <= j < i ==> (#[trigger] markers@[j]).name@ == r@[j].name@ && markers@[j].instance_id
                    == r@[j].instance_id,
        decreases markers@.len() - i,
    {
        r.push(RunningElementMarkerPageable { name: markers[i].name.clone(), instance_id: markers[i].instance_id });
        i = i + 1;
    }
    r
}

/// Children that are copies one by one are copies from any of them on.
proof fn lemma_same_children<P: Paint>(a: Seq<PositionedChild<P>>, b: Seq<PositionedChild<P>>, k: int)
    requires
        0 <= k <= a.len() == b.len(),
        forall|i: int| k <= i < a.len() ==> same_place(#[trigger] a[i], b[i]) && same_part(*a[i].child, *b[i].child),
    ensures
        same_children(a, b, k),
    decreases a.len() - k,
{
    if k < a.len() {
        assert(same_place(a[k], b[k]));
        lemma_same_children(a, b, k + 1);
    }
}

fn copy_children<P: Paint>(children: &Vec<PositionedChild<P>>) -> (r: Vec<PositionedChild<P>>)
    ensures
        same_children(children@, r@, 0),
    decreases children, 0int,
{
    let mut r: Vec<PositionedChild<P>> = Vec::new();
    let mut i: usize = 0;
    while i < children.len()
        invariant
            i == r@.len() <= children@.len(),
            forall|j: int|
                0 <= j < i ==> same_place(#[trigger] children@[j], r@[j]) && same_part(*children@[j].child, *r@[j].child),
        decreases children@.len() - i,
    {
        let c: &PositionedChild<P> = &children[i];
        r.push(
            PositionedChild {
                child: Box::new(copy_part(&*c.child)),
                x: c.x.clone(),
                y: c.y.clone(),
                height: c.height.clone(),
                out_of_flow: c.out_of_flow,
                is_fixed: c.is_fixed,
            },
        );
        i = i + 1;
    }
    proof {
        lemma_same_children(children@, r@, 0);
    }
    r
}

fn copy_block<P: Paint>(p: &BlockPageable<P>) -> (r: BlockPageable<P>)
    ensures
        same_part(Pageable::Block(*p), Pageable::Block(r)),
    decreases p, 1int,
{
    BlockPageable {
        children: copy_children(&p.children),
        cached_size: copy_size(&p.cached_size),
        layout_size: copy_size(&p.layout_size),
        style: p.style.clone(),
        opacity: p.opacity.clone(),
        visible: p.visible,
        id: copy_id(&p.id),
        node_id: p.node_id,
    }
}

fn copy_table<P: Paint>(p: &TablePageable<P>) -> (r: TablePageable<P>)
    ensures
        same_part(Pageable::Table(*p), Pageable::Table(r)),
    decreases p, 1int,
{
    TablePageable {
        header_cells: copy_children(&p.header_cells),
        body_cells: copy_children(&p.body_cells),
        header_height: p.header_height.clone(),
        style: p.style.clone(),
        layout_size: copy_size(&p.layout_size),
        width: p.width.clone(),
        cached_height: p.cached_height.clone(),
        opacity: p.opacity.clone(),
        visible: p.visible,
        id: copy_id(&p.id),
        node_id: p.node_id,
    }
}

fn copy_list_item<P: Paint>(p: &ListItemPageable<P>) -> (r: ListItemPageable<P>)
    ensures
        same_part(Pageable::ListItem(*p), Pageable::ListItem(r)),
    decreases p, 1int,
{
    ListItemPageable {
        marker: copy_marker(&p.marker),
        marker_line_height: p.marker_line_height.clone(),
        body: Box::new(copy_part(&*p.body)),
        style: p.style.clone(),
        width: p.width.clone(),
        height: p.height.clone(),
        opacity: p.opacity.clone(),
        visible: p.visible,
        node_id: p.node_id,
    }
}

fn copy_bookmark_wrapper<P: Paint>(p: &BookmarkMarkerWrapperPageable<P>) -> (r: BookmarkMarkerWrapperPageable<P>)
    ensures
        same_part(Pageable::BookmarkMarkerWrapper(*p), Pageable::BookmarkMarkerWrapper(r)),
    decreases p, 1int,
{
    BookmarkMarkerWrapperPageable {
        marker: BookmarkMarkerPageable { level: p.marker.level, label: p.marker.label.clone() },
        child: Box::new(copy_part(&*p.child)),
    }
}

fn copy_counter_wrapper<P: Paint>(p: &CounterOpWrapperPageable<P>) -> (r: CounterOpWrapperPageable<P>)
    ensures
        same_part(Pageable::CounterOpWrapper(*p), Pageable::CounterOpWrapper(r)),
    decreases p, 1int,
{
    CounterOpWrapperPageable { ops: copy_ops(&p.ops), child: Box::new(copy_part(&*p.child)) }
}

fn copy_transform_wrapper<P: Paint>(p: &TransformWrapperPageable<P>) -> (r: TransformWrapperPageable<P>)
    ensures
        same_part(Pageable::TransformWrapper(*p), Pageable::TransformWrapper(r)),
    decreases p, 1int,
{
    TransformWrapperPageable {
        inner: Box::new(copy_part(&*p.inner)),
        matrix: p.matrix.clone(),
        origin: p.origin.clone(),
    }
}

fn copy_string_wrapper<P: Paint>(p: &StringSetWrapperPageable<P>) -> (r: StringSetWrapperPageable<P>)
    ensures
        same_part(Pageable::StringSetWrapper(*p), Pageable::StringSetWrapper(r)),
    decreases p, 1int,
{
    StringSetWrapperPageable { markers: copy_strings(&p.markers), child: Box::new(copy_part(&*p.child)) }
}

fn copy_element_wrapper<P: Paint>(p: &RunningElementWrapperPageable<P>) -> (r: RunningElementWrapperPageable<P>)
    ensures
        same_part(Pageable::RunningElementWrapper(*p), Pageable::RunningElementWrapper(r)),
    decreases p, 1int,
{
    RunningElementWrapperPageable { markers: copy_elements(&p.markers), child: Box::new(copy_part(&*p.child)) }
}

fn copy_rules<P: Paint>(p: &MulticolRulePageable<P>) -> (r: MulticolRulePageable<P>)
    ensures
        same_part(Pageable::MulticolRule(*p), Pageable::MulticolRule(r)),
    decreases p, 1int,
{
    MulticolRulePageable {
        child: Box::new(copy_part(&*p.child)),
        rule: p.rule.clone(),
        groups: copy_groups(&p.groups),
    }
}

fn copy_part<P: Paint>(part: &Pageable<P>) -> (r: Pageable<P>)
    ensures
        same_part(*part, r),
    decreases part, 1int,
{
    match part {
        Pageable::Block(p) => Pageable::Block(copy_block(p)),
        Pageable::Spacer(p) => Pageable::Spacer(SpacerPageable { height: p.height.clone(), node_id: p.node_id }),
        Pageable::BookmarkMarker(p) => Pageable::BookmarkMarker(
            BookmarkMarkerPageable { level: p.level, label: p.label.clone() },
        ),
        Pageable::BookmarkMarkerWrapper(p) => Pageable::BookmarkMarkerWrapper(copy_bookmark_wrapper(p)),
        Pageable::StringSet(p) => Pageable::StringSet(
            StringSetPageable { name: p.name.clone(), value: p.value.clone() },
        ),
        Pageable::RunningElementMarker(p) => Pageable::RunningElementMarker(
            RunningElementMarkerPageable { name: p.name.clone(), instance_id: p.instance_id },
        ),
        Pageable::CounterOpMarker(p) => Pageable::CounterOpMarker(CounterOpMarkerPageable { ops: copy_ops(&p.ops) }),
        Pageable::CounterOpWrapper(p) => Pageable::CounterOpWrapper(copy_counter_wrapper(p)),
        Pageable::TransformWrapper(p) => Pageable::TransformWrapper(copy_transform_wrapper(p)),
        Pageable::StringSetWrapper(p) => Pageable::StringSetWrapper(copy_string_wrapper(p)),
        Pageable::RunningElementWrapper(p) => Pageable::RunningElementWrapper(copy_element_wrapper(p)),
        Pageable::MulticolRule(p) => Pageable::MulticolRule(copy_rules(p)),
        Pageable::ListItem(p) => Pageable::ListItem(copy_list_item(p)),
        Pageable::Table(p) => Pageable::Table(copy_table(p)),
        Pageable::Leaf(content, id) => Pageable::Leaf(content.clone(), *id),
    }
}

impl<P: Paint> Clone for Pageable<P> {
    fn clone(&self) -> (r: Self)
        ensures
            same_part(*self, r),
    {
        copy_part(self)
    }
}

impl<P: Paint> Clone for PositionedChild<P> {
    fn clone(&self) -> (r: Self)
        ensures
            same_place(*self, r),
            same_part(*self.child, *r.child),
    {
        PositionedChild {
            child: Box::new(copy_part(&*self.child)),
            x: self.x.clone(),
            y: self.y.clone(),
            height: self.height.clone(),
            out_of_flow: self.out_of_flow,
            is_fixed: self.is_fixed,
        }
    }
}

impl<P: Paint> Clone for BlockPageable<P> {
    fn clone(&self) -> (r: Self)
        ensures
            same_part(Pageable::Block(*self), Pageable::Block(r)),
    {
        copy_block(self)
    }
}

impl<P: Paint> Clone for TablePageable<P> {
    fn clone(&self) -> (r: Self)
        ensures
            same_part(Pageable::Table(*self), Pageable::Table(r)),
    {
        copy_table(self)
    }
}

impl<P: Paint> Clone for ListItemPageable<P> {
    fn clone(&self) -> (r: Self)
        ensures
            same_part(Pageable::ListItem(*self), Pageable::ListItem(r)),
    {
        copy_list_item(self)
    }
}

impl<P: Paint> Clone for BookmarkMarkerWrapperPageable<P> {
    fn clone(&self) -> (r: Self)
        ensures
            same_part(Pageable::BookmarkMarkerWrapper(*self), Pageable::BookmarkMarkerWrapper(r)),
    {
        copy_bookmark_wrapper(self)
    }
}

impl<P: Paint> Clone for CounterOpWrapperPageable<P> {
    fn clone(&self) -> (r: Self)
        ensures
            same_part(Pageable::CounterOpWrapper(*self), Pageable::CounterOpWrapper(r)),
    {
        copy_counter_wrapper(self)
    }
}

impl<P: Paint> Clone for TransformWrapperPageable<P> {
    fn clone(&self) -> (r: Self)
        ensures
            same_part(Pageable::TransformWrapper(*self), Pageable::TransformWrapper(r)),
    {
        copy_transform_wrapper(self)
    }
}

impl<P: Paint> Clone for StringSetWrapperPageable<P> {
    fn clone(&self) -> (r: Self)
        ensures
            same_part(Pageable::StringSetWrapper(*self), Pageable::StringSetWrapper(r)),
    {
        copy_string_wrapper(self)
    }
}

impl<P: Paint> Clone for RunningElementWrapperPageable<P> {
    fn clone(&self) -> (r: Self)
        ensures
            same_part(Pageable::RunningElementWrapper(*self), Pageable::RunningElementWrapper(r)),
    {
        copy_element_wrapper(self)
    }
}

impl<P: Paint> Clone for MulticolRulePageable<P> {
    fn clone(&self) -> (r: Self)
        ensures
            same_part(Pageable::MulticolRule(*self), Pageable::MulticolRule(r)),
    {
        copy_rules(self)
    }
}

/// Whether a strip of a container is a copy of another.
pub open spec fn same_segment<P: Paint>(a: Segment<P>, b: Segment<P>) -> bool {
    match (a, b) {
        (Segment::ColumnGroup(x), Segment::ColumnGroup(y)) => {
            &&& x@.len() == y@.len()
            &&& forall|i: int| 0 <= i < x@.len() ==> same_part(*(#[trigger] x@[i]), *y@[i])
        },
        (Segment::SpanAll(x), Segment::SpanAll(y)) => same_part(*x, *y),
        _ => false,
    }
}

impl<P: Paint> Clone for Segment<P> {
    fn clone(&self) -> (r: Self)
        ensures
            same_segment(*self, r),
    {
        match self {
            Segment::ColumnGroup(parts) => {
                let mut copies: Vec<Box<Pageable<P>>> = Vec::new();
                let mut i: usize = 0;
                while i < parts.len()
                    invariant
                        i == copies@.len() <= parts@.len(),
                        forall|j: int| 0 <= j < i ==> same_part(*(#[trigger] parts@[j]), *copies@[j]),
                    decreases parts@.len() - i,
                {
                    copies.push(Box::new(copy_part(&*parts[i])));
                    i = i + 1;
                }
                Segment::ColumnGroup(copies)
            },
            Segment::SpanAll(part) => Segment::SpanAll(Box::new(copy_part(&**part))),
        }
    }
}

/// Whether a container with columns is a copy of another.
pub open spec fn same_container<P: Paint, B: Copy>(a: MulticolPageable<P, B>, b: MulticolPageable<P, B>) -> bool {
    &&& a.props.column_count == b.props.column_count
    &&& match (a.props.column_width, b.props.column_width) {
        (Some(x), Some(y)) => cloned(x, y),
        (None, None) => true,
        _ => false,
    }
    &&& cloned(a.props.column_gap, b.props.column_gap)
    &&& a.segments@.len() == b.segments@.len()
    &&& forall|i: int| 0 <= i < a.segments@.len() ==> same_segment(#[trigger] a.segments@[i], b.segments@[i])
    &&& match (a.column_rule, b.column_rule) {
        (Some(x), Some(y)) => cloned(x.width, y.width) && x.style == y.style && x.color == y.color,
        (None, None) => true,
        _ => false,
    }
    &&& a.fill == b.fill
    &&& cloned(a.style, b.style) && cloned(a.opacity, b.opacity)
    &&& a.visible == b.visible && a.id == b.id
    &&& a.resolved_count == b.resolved_count
    &&& cloned(a.resolved_col_w, b.resolved_col_w)
    &&& same_size(a.layout_size, b.layout_size)
    &&& same_part(Pageable::Block(*a.fallback), Pageable::Block(*b.fallback))
}

impl<P: Paint, B: Copy> Clone for MulticolPageable<P, B> {
    fn clone(&self) -> (r: Self)
        ensures
            same_container(*self, r),
    {
        let mut segments: Vec<Segment<P>> = Vec::new();
        let mut i: usize = 0;
        while i < self.segments.len()
            invariant
                i == segments@.len() <= self.segments@.len(),
                forall|j: int| 0 <= j < i ==> same_segment(#[trigger] self.segments@[j], segments@[j]),
            decreases self.segments@.len() - i,
        {
            segments.push(self.segments[i].clone());
            i = i + 1;
        }
        MulticolPageable {
            props: MulticolProps {
                column_count: self.props.column_count,
                column_width: match &self.props.column_width {
                    Some(width) => Some(width.clone()),
                    None => None,
                },
                column_gap: self.props.column_gap.clone(),
            },
            segments,
            column_rule: match &self.column_rule {
                Some(rule) => Some(
                    crate::multicol::ColumnRule { width: rule.width.clone(), style: rule.style, color: rule.color },
                ),
                None => None,
            },
            fill: self.fill,
            style: self.style.clone(),
            opacity: self.opacity.clone(),
            visible: self.visible,
            id: copy_id(&self.id),
            resolved_count: self.resolved_count,
            resolved_col_w: self.resolved_col_w.clone(),
            layout_size: copy_size(&self.layout_size),
            fallback: Box::new(copy_block(&*self.fallback)),
        }
    }
}

} // verus!
