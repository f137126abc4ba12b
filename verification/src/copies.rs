//! What a copy of a part has in common with it.

use crate::drawables::{ColumnRuleGeometry, ListItemMarker};
use crate::duplicate::{
    same_children, same_container, same_groups, same_items, same_part, same_place, same_segment,
};
use crate::gcpm::CounterOpModel;
use crate::model::views;
use crate::multicol::{parts_of, MulticolPageable, Segment};
use crate::pageable::{Pageable, PositionedChild};
use crate::paint::Paint;
use crate::scene::{
    Extent, Within, best_size, children_sight, columns_of, group_sight, groups_sight, part_sight,
};
use vstd::prelude::*;

verus! {

/// Whether the values that are drawn with are equal to their clones.
pub open spec fn clones_are_equal<P: Paint>() -> bool {
    &&& forall|a: P::Length, b: P::Length| #[trigger] cloned(a, b) ==> a == b
    &&& forall|a: P::Opacity, b: P::Opacity| #[trigger] cloned(a, b) ==> a == b
    &&& forall|a: P::Style, b: P::Style| #[trigger] cloned(a, b) ==> a == b
    &&& forall|a: P::Line, b: P::Line| #[trigger] cloned(a, b) ==> a == b
    &&& forall|a: P::Matrix, b: P::Matrix| #[trigger] cloned(a, b) ==> a == b
    &&& forall|a: P::Point, b: P::Point| #[trigger] cloned(a, b) ==> a == b
    &&& forall|a: P::Rule, b: P::Rule| #[trigger] cloned(a, b) ==> a == b
    &&& forall|a: P::Leaf, b: P::Leaf| #[trigger] cloned(a, b) ==> a == b
}

proof fn lemma_lengths<P: Paint>(a: Seq<P::Length>, b: Seq<P::Length>)
    requires
        clones_are_equal::<P>(),
        same_items(a, b),
    ensures
        a == b,
{
    assert forall|i: int| 0 <= i < a.len() implies a[i] == b[i] by {
        assert(cloned(a[i], b[i]));
    }
    assert(a =~= b);
}

proof fn lemma_lines<P: Paint>(a: Seq<P::Line>, b: Seq<P::Line>)
    requires
        clones_are_equal::<P>(),
        same_items(a, b),
    ensures
        a == b,
{
    assert forall|i: int| 0 <= i < a.len() implies a[i] == b[i] by {
        assert(cloned(a[i], b[i]));
    }
    assert(a =~= b);
}

proof fn lemma_group<P: Paint>(
    rule: P::Rule,
    a: ColumnRuleGeometry<P>,
    b: ColumnRuleGeometry<P>,
    k: int,
    open: Seq<Within<P>>,
)
    requires
        columns_of(a) == columns_of(b),
    ensures
        group_sight(rule, a, k, open) == group_sight(rule, b, k, open),
    decreases k,
{
    if k > 1 {
        lemma_group(rule, a, b, k - 1, open);
    }
}

proof fn lemma_groups<P: Paint>(
    rule: P::Rule,
    a: Seq<ColumnRuleGeometry<P>>,
    b: Seq<ColumnRuleGeometry<P>>,
    k: int,
    open: Seq<Within<P>>,
)
    requires
        clones_are_equal::<P>(),
        same_groups(a, b),
        0 <= k <= a.len(),
    ensures
        groups_sight(rule, a, k, open) == groups_sight(rule, b, k, open),
    decreases k,
{
    if k > 0 {
        lemma_groups(rule, a, b, k - 1, open);
        let (x, y) = (a[k - 1], b[k - 1]);
        assert(crate::duplicate::same_group(a[k - 1], b[k - 1]));
        lemma_lengths::<P>(x.col_heights@, y.col_heights@);
        assert(columns_of(x) == columns_of(y));
        lemma_group(rule, x, y, x.n as int, open);
    }
}

proof fn lemma_child<P: Paint>(a: Seq<PositionedChild<P>>, b: Seq<PositionedChild<P>>, from: int, k: int)
    requires
        same_children(a, b, from),
        0 <= from <= k < a.len(),
    ensures
        a.len() == b.len(),
        same_place(a[k], b[k]),
        same_part(*a[k].child, *b[k].child),
    decreases a.len() - from,
{
    if from < k {
        lemma_child(a, b, from + 1, k);
    } else {
        lemma_children_count(a, b, from);
    }
}

proof fn lemma_children_count<P: Paint>(a: Seq<PositionedChild<P>>, b: Seq<PositionedChild<P>>, from: int)
    requires
        same_children(a, b, from),
        0 <= from,
    ensures
        a.len() == b.len(),
    decreases a.len() - from,
{
    if from < a.len() {
        lemma_children_count(a, b, from + 1);
    }
}

proof fn lemma_children_look_the_same<P: Paint>(
    a: Seq<PositionedChild<P>>,
    b: Seq<PositionedChild<P>>,
    k: int,
    width: Option<P::Length>,
    open: Seq<Within<P>>,
)
    requires
        clones_are_equal::<P>(),
        same_children(a, b, 0),
        0 <= k <= a.len(),
    ensures
        a.len() == b.len(),
        children_sight(a, k, width, open) == children_sight(b, k, width, open),
    decreases a, 0int, k,
{
    lemma_children_count(a, b, 0);
    if k > 0 {
        lemma_child(a, b, 0, k - 1);
        lemma_children_look_the_same(a, b, k - 1, width, open);
        let (x, y) = (a[k - 1], b[k - 1]);
        assert(cloned(x.x, y.x) && cloned(x.y, y.y) && cloned(x.height, y.height));
        let inside = open.push(Within::Place(x.x, x.y, width, x.height));
        law_copies_look_the_same::<P>(*x.child, *y.child, inside);
    }
}

/// Where clones are equal to what they are clones of, a copy of a part looks the same as
/// the part, inside any groups.
pub proof fn law_copies_look_the_same<P: Paint>(a: Pageable<P>, b: Pageable<P>, open: Seq<Within<P>>)
    requires
        clones_are_equal::<P>(),
        same_part(a, b),
    ensures
        part_sight(a, open) == part_sight(b, open),
    decreases a, 1int, 0int,
{
    match (a, b) {
        (Pageable::Block(x), Pageable::Block(y)) => {
            assert(cloned(x.style, y.style) && cloned(x.opacity, y.opacity));
            let extent = best_size::<P>(x.layout_size, x.cached_size);
            assert(extent == best_size::<P>(y.layout_size, y.cached_size));
            let clipped = open.push(Within::Opacity(x.opacity)).push(Within::Clip(x.style, extent));
            lemma_children_look_the_same(x.children@, y.children@, x.children@.len() as int, None, clipped);
        },
        (Pageable::Table(x), Pageable::Table(y)) => {
            assert(cloned(x.style, y.style) && cloned(x.opacity, y.opacity));
            assert(cloned(x.width, y.width) && cloned(x.cached_height, y.cached_height));
            let height = if x.layout_size is Some { x.layout_size->0.height } else { x.cached_height };
            assert(height == if y.layout_size is Some { y.layout_size->0.height } else { y.cached_height });
            let extent = Extent::<P>::Given(x.width, height);
            let clipped = open.push(Within::Opacity(x.opacity)).push(Within::Clip(x.style, extent));
            let w = Some(x.width);
            lemma_children_look_the_same(x.header_cells@, y.header_cells@, x.header_cells@.len() as int, w, clipped);
            lemma_children_look_the_same(x.body_cells@, y.body_cells@, x.body_cells@.len() as int, w, clipped);
        },
        (Pageable::ListItem(x), Pageable::ListItem(y)) => {
            assert(cloned(x.opacity, y.opacity));
            match (x.marker, y.marker) {
                (ListItemMarker::Text { lines: l, width: v }, ListItemMarker::Text { lines: k, width: w }) => {
                    lemma_lines::<P>(l@, k@);
                    assert(cloned(v, w));
                },
                _ => {},
            }
            law_copies_look_the_same::<P>(*x.body, *y.body, open.push(Within::Opacity(x.opacity)));
        },
        (Pageable::BookmarkMarkerWrapper(x), Pageable::BookmarkMarkerWrapper(y)) => {
            law_copies_look_the_same::<P>(*x.child, *y.child, open);
        },
        (Pageable::TransformWrapper(x), Pageable::TransformWrapper(y)) => {
            assert(cloned(x.matrix, y.matrix) && cloned(x.origin, y.origin));
            law_copies_look_the_same::<P>(
                *x.inner,
                *y.inner,
                open.push(Within::Transform(x.matrix, x.origin)),
            );
        },
        (Pageable::MulticolRule(x), Pageable::MulticolRule(y)) => {
            assert(cloned(x.rule, y.rule));
            law_copies_look_the_same::<P>(*x.child, *y.child, open);
            lemma_groups(x.rule, x.groups@, y.groups@, x.groups@.len() as int, open);
        },
        (Pageable::CounterOpWrapper(x), Pageable::CounterOpWrapper(y)) => {
            law_copies_look_the_same::<P>(*x.child, *y.child, open);
        },
        (Pageable::StringSetWrapper(x), Pageable::StringSetWrapper(y)) => {
            law_copies_look_the_same::<P>(*x.child, *y.child, open);
        },
        (Pageable::RunningElementWrapper(x), Pageable::RunningElementWrapper(y)) => {
            law_copies_look_the_same::<P>(*x.child, *y.child, open);
        },
        (Pageable::Leaf(x, _), Pageable::Leaf(y, _)) => {
            assert(cloned(x, y));
        },
        _ => {},
    }
}

/// What is not seen of a part and matters all the same.
pub ghost enum Unseen {
    /// The node that a part stands for.
    Node(Option<usize>),
    /// Whether a child is out of the flow, and whether it is placed on the page itself.
    Child(bool, bool),
    /// A named string and its value.
    Named(Seq<char>, Seq<char>),
    /// A running element and its instance.
    Running(Seq<char>, usize),
    /// Changes of counters.
    Counters(Seq<CounterOpModel>),
}

/// The unseen of the first `k` of some children.
pub open spec fn unseen_among<P: Paint>(children: Seq<PositionedChild<P>>, k: int) -> Seq<Unseen>
    decreases children, 0int, k,
{
    if k <= 0 || k > children.len() {
        Seq::empty()
    } else {
        let c = children[k - 1];
        unseen_among(children, k - 1).push(Unseen::Child(c.out_of_flow, c.is_fixed)) + unseen::<P>(*c.child)
    }
}

/// The unseen of a part and of all that it holds.
pub open spec fn unseen<P: Paint>(part: Pageable<P>) -> Seq<Unseen>
    decreases part, 1int, 0int,
{
    match part {
        Pageable::Block(p) => seq![Unseen::Node(p.node_id)] + unseen_among(p.children@, p.children@.len() as int),
        Pageable::Table(p) => seq![Unseen::Node(p.node_id)] + unseen_among(
            p.header_cells@,
            p.header_cells@.len() as int,
        ) + unseen_among(p.body_cells@, p.body_cells@.len() as int),
        Pageable::ListItem(p) => seq![Unseen::Node(p.node_id)] + unseen::<P>(*p.body),
        Pageable::Spacer(p) => seq![Unseen::Node(p.node_id)],
        Pageable::Leaf(_, id) => seq![Unseen::Node(id)],
        Pageable::StringSet(p) => seq![Unseen::Named(p.name@, p.value@)],
        Pageable::RunningElementMarker(p) => seq![Unseen::Running(p.name@, p.instance_id)],
        Pageable::CounterOpMarker(p) => seq![Unseen::Counters(views(p.ops@))],
        Pageable::StringSetWrapper(p) => Seq::new(
            p.markers@.len(),
            |i: int| Unseen::Named(p.markers@[i].name@, p.markers@[i].value@),
        ) + unseen::<P>(*p.child),
        Pageable::RunningElementWrapper(p) => Seq::new(
            p.markers@.len(),
            |i: int| Unseen::Running(p.markers@[i].name@, p.markers@[i].instance_id),
        ) + unseen::<P>(*p.child),
        Pageable::CounterOpWrapper(p) => seq![Unseen::Counters(views(p.ops@))] + unseen::<P>(*p.child),
        Pageable::BookmarkMarker(_) => Seq::empty(),
        Pageable::BookmarkMarkerWrapper(p) => unseen::<P>(*p.child),
        Pageable::TransformWrapper(p) => unseen::<P>(*p.inner),
        Pageable::MulticolRule(p) => unseen::<P>(*p.child),
    }
}

proof fn lemma_children_keep_the_unseen<P: Paint>(a: Seq<PositionedChild<P>>, b: Seq<PositionedChild<P>>, k: int)
    requires
        same_children(a, b, 0),
        0 <= k <= a.len(),
    ensures
        a.len() == b.len(),
        unseen_among(a, k) == unseen_among(b, k),
    decreases a, 0int, k,
{
    lemma_children_count(a, b, 0);
    if k > 0 {
        lemma_child(a, b, 0, k - 1);
        lemma_children_keep_the_unseen(a, b, k - 1);
        law_copies_keep_the_unseen::<P>(*a[k - 1].child, *b[k - 1].child);
    }
}

/// A copy of a part keeps all nodes, named strings, running elements and changes of
/// counters of the part, and whether its children are in the flow.
pub proof fn law_copies_keep_the_unseen<P: Paint>(a: Pageable<P>, b: Pageable<P>)
    requires
        same_part(a, b),
    ensures
        unseen(a) == unseen(b),
        a.node() == b.node(),
    decreases a, 1int, 0int,
{
    match (a, b) {
        (Pageable::Block(x), Pageable::Block(y)) => {
            lemma_children_keep_the_unseen(x.children@, y.children@, x.children@.len() as int);
        },
        (Pageable::Table(x), Pageable::Table(y)) => {
            lemma_children_keep_the_unseen(x.header_cells@, y.header_cells@, x.header_cells@.len() as int);
            lemma_children_keep_the_unseen(x.body_cells@, y.body_cells@, x.body_cells@.len() as int);
        },
        (Pageable::ListItem(x), Pageable::ListItem(y)) => {
            law_copies_keep_the_unseen::<P>(*x.body, *y.body);
        },
        (Pageable::BookmarkMarkerWrapper(x), Pageable::BookmarkMarkerWrapper(y)) => {
            law_copies_keep_the_unseen::<P>(*x.child, *y.child);
        },
        (Pageable::TransformWrapper(x), Pageable::TransformWrapper(y)) => {
            law_copies_keep_the_unseen::<P>(*x.inner, *y.inner);
        },
        (Pageable::MulticolRule(x), Pageable::MulticolRule(y)) => {
            law_copies_keep_the_unseen::<P>(*x.child, *y.child);
        },
        (Pageable::CounterOpWrapper(x), Pageable::CounterOpWrapper(y)) => {
            law_copies_keep_the_unseen::<P>(*x.child, *y.child);
        },
        (Pageable::StringSetWrapper(x), Pageable::StringSetWrapper(y)) => {
            law_copies_keep_the_unseen::<P>(*x.child, *y.child);
            let l = Seq::new(x.markers@.len(), |i: int| Unseen::Named(x.markers@[i].name@, x.markers@[i].value@));
            let r = Seq::new(y.markers@.len(), |i: int| Unseen::Named(y.markers@[i].name@, y.markers@[i].value@));
            assert forall|i: int| 0 <= i < l.len() implies l[i] == r[i] by {
                assert(x.markers@[i].name@ == y.markers@[i].name@);
            }
            assert(l =~= r);
        },
        (Pageable::RunningElementWrapper(x), Pageable::RunningElementWrapper(y)) => {
            law_copies_keep_the_unseen::<P>(*x.child, *y.child);
            let l = Seq::new(x.markers@.len(), |i: int| Unseen::Running(x.markers@[i].name@, x.markers@[i].instance_id));
            let r = Seq::new(y.markers@.len(), |i: int| Unseen::Running(y.markers@[i].name@, y.markers@[i].instance_id));
            assert forall|i: int| 0 <= i < l.len() implies l[i] == r[i] by {
                assert(x.markers@[i].name@ == y.markers@[i].name@);
            }
            assert(l =~= r);
        },
        _ => {},
    }
}

/// A part without the wrappers around it.
pub open spec fn unwrapped<P: Paint>(part: Pageable<P>) -> Pageable<P>
    decreases part,
{
    match part {
        Pageable::BookmarkMarkerWrapper(p) => unwrapped(*p.child),
        Pageable::CounterOpWrapper(p) => unwrapped(*p.child),
        Pageable::TransformWrapper(p) => unwrapped(*p.inner),
        Pageable::StringSetWrapper(p) => unwrapped(*p.child),
        Pageable::RunningElementWrapper(p) => unwrapped(*p.child),
        Pageable::MulticolRule(p) => unwrapped(*p.child),
        _ => part,
    }
}

/// However a part is wrapped, it stands for the node that it stands for by itself: the
/// node that it was given, and none for a mark.
pub proof fn law_wrapping_keeps_the_node<P: Paint>(part: Pageable<P>)
    ensures
        part.node() == unwrapped(part).node(),
        match unwrapped(part) {
            Pageable::Block(p) => part.node() == p.node_id,
            Pageable::Spacer(p) => part.node() == p.node_id,
            Pageable::ListItem(p) => part.node() == p.node_id,
            Pageable::Table(p) => part.node() == p.node_id,
            Pageable::Leaf(_, id) => part.node() == id,
            _ => part.node() is None,
        },
    decreases part,
{
    match part {
        Pageable::BookmarkMarkerWrapper(p) => law_wrapping_keeps_the_node(*p.child),
        Pageable::CounterOpWrapper(p) => law_wrapping_keeps_the_node(*p.child),
        Pageable::TransformWrapper(p) => law_wrapping_keeps_the_node(*p.inner),
        Pageable::StringSetWrapper(p) => law_wrapping_keeps_the_node(*p.child),
        Pageable::RunningElementWrapper(p) => law_wrapping_keeps_the_node(*p.child),
        Pageable::MulticolRule(p) => law_wrapping_keeps_the_node(*p.child),
        _ => {},
    }
}

/// The parts of a segment, and whether it spans all columns.
pub open spec fn held_in<P: Paint>(segment: Segment<P>) -> (bool, Seq<Pageable<P>>) {
    match segment {
        Segment::ColumnGroup(parts) => (false, parts_of(parts@)),
        Segment::SpanAll(part) => (true, seq![*part]),
    }
}

/// Where clones are equal to what they are clones of, a copy of a container with columns
/// has the same settings, and the same segments with parts that look the same and keep
/// what is not seen of them.
pub proof fn law_container_copies_are_whole<P: Paint, B: Copy>(
    a: MulticolPageable<P, B>,
    b: MulticolPageable<P, B>,
    open: Seq<Within<P>>,
    i: int,
    k: int,
)
    requires
        clones_are_equal::<P>(),
        same_container(a, b),
    ensures
        (a.props, a.column_rule, a.fill, a.style, a.opacity) == (b.props, b.column_rule, b.fill, b.style, b.opacity),
        (a.visible, a.id, a.resolved_count, a.resolved_col_w, a.layout_size) == (
            b.visible,
            b.id,
            b.resolved_count,
            b.resolved_col_w,
            b.layout_size,
        ),
        part_sight(Pageable::Block(*a.fallback), open) == part_sight(Pageable::Block(*b.fallback), open),
        a.segments@.len() == b.segments@.len(),
        0 <= i < a.segments@.len() ==> {
            let (spans, parts) = held_in(a.segments@[i]);
            let (copy_spans, copies) = held_in(b.segments@[i]);
            &&& spans == copy_spans
            &&& parts.len() == copies.len()
            &&& 0 <= k < parts.len() ==> part_sight(parts[k], open) == part_sight(copies[k], open) && unseen(parts[k])
                == unseen(copies[k])
        },
{
    assert(cloned(a.props.column_gap, b.props.column_gap));
    assert(a.props.column_width is Some ==> cloned(a.props.column_width->0, b.props.column_width->0));
    assert(a.column_rule is Some ==> cloned(a.column_rule->0.width, b.column_rule->0.width));
    assert(cloned(a.style, b.style) && cloned(a.opacity, b.opacity) && cloned(a.resolved_col_w, b.resolved_col_w));
    law_copies_look_the_same(Pageable::Block(*a.fallback), Pageable::Block(*b.fallback), open);
    if 0 <= i < a.segments@.len() {
        assert(same_segment(a.segments@[i], b.segments@[i]));
        let (spans, parts) = held_in(a.segments@[i]);
        let (copy_spans, copies) = held_in(b.segments@[i]);
        if 0 <= k < parts.len() {
            match (a.segments@[i], b.segments@[i]) {
                (Segment::ColumnGroup(x), Segment::ColumnGroup(y)) => {
                    assert(same_part(*x@[k], *y@[k]));
                },
                _ => {},
            }
            law_copies_look_the_same(parts[k], copies[k], open);
            law_copies_keep_the_unseen(parts[k], copies[k]);
        }
    }
}

} // verus!
