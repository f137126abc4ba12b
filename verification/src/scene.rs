//! What is seen of a part of a page.
//!
//! What is seen is told twice: from the tree of parts, and from the commands that draw
//! it. Either way it is a list of things, each inside the groups that are open around
//! it.

use crate::draw::{
    ChildWidth, DrawCommand, Frame, all_gaps, block_frame, children_plan, gaps, marker_lines, own_box, plan,
    table_frame,
};
use crate::drawables::{ColumnRuleGeometry, ListItemMarker};
use crate::pageable::{Pageable, PositionedChild};
use crate::paint::{Paint, Size};
use vstd::prelude::*;

verus! {

/// The size of a box, or all the space that there is.
pub ghost enum Extent<P: Paint> {
    Given(P::Length, P::Length),
    Available,
}

/// A group that is open around something.
pub ghost enum Within<P: Paint> {
    Opacity(P::Opacity),
    Clip(P::Style, Extent<P>),
    /// A child's place: its offset, its width, if it is not its parent's, and its
    /// height.
    Place(P::Length, P::Length, Option<P::Length>, P::Length),
    Transform(P::Matrix, P::Point),
}

/// The columns that a rule stands between: where they begin, how wide they and their gaps
/// are, how many there are, and how high each is.
pub ghost struct Columns<P: Paint> {
    pub x: P::Length,
    pub y: P::Length,
    pub width: P::Length,
    pub gap: P::Length,
    pub count: u32,
    pub heights: Seq<P::Length>,
}

/// The columns of a group.
pub open spec fn columns_of<P: Paint>(group: ColumnRuleGeometry<P>) -> Columns<P> {
    Columns {
        x: group.x_offset,
        y: group.y_offset,
        width: group.col_w,
        gap: group.gap,
        count: group.n,
        heights: group.col_heights@,
    }
}

/// A thing that is seen, or a group that opens.
pub ghost enum Thing<P: Paint> {
    Opens,
    Shadows(P::Style, Extent<P>),
    Background(P::Style, Extent<P>),
    Border(P::Style, Extent<P>),
    Bookmark(u8, Seq<char>),
    Marker(Seq<P::Line>, P::Length),
    Gap(P::Rule, Columns<P>, int),
    Leaf(P::Leaf),
}

/// A list of things, each with the groups around it, the outermost first.
pub type Sight<P> = Seq<(Thing<P>, Seq<Within<P>>)>;

pub open spec fn extent_of<'a, P: Paint + 'a>(frame: Frame<'a, P>) -> Extent<P> {
    match frame {
        Frame::Sized(size) => Extent::Given(size.width, size.height),
        Frame::Sides(width, height) => Extent::Given(*width, *height),
        Frame::Available => Extent::Available,
    }
}

/// What commands show, given the groups open before, and the groups open after.
pub open spec fn seen<'a, P: Paint + 'a>(commands: Seq<DrawCommand<'a, P>>, open: Seq<Within<P>>) -> (Sight<P>, Seq<Within<P>>)
    decreases commands.len(),
{
    if commands.len() == 0 {
        (Seq::empty(), open)
    } else {
        let (thing, then) = seen_one(commands[0], open);
        let (more, end) = seen(commands.drop_first(), then);
        (thing + more, end)
    }
}

/// What one command shows, and the groups open after it.
pub open spec fn seen_one<'a, P: Paint + 'a>(command: DrawCommand<'a, P>, open: Seq<Within<P>>) -> (Sight<P>, Seq<Within<P>>) {
    match command {
        DrawCommand::PushOpacity(opacity) => {
            let then = open.push(Within::Opacity(*opacity));
            (seq![(Thing::Opens, then)], then)
        },
        DrawCommand::PushClip { style, frame } => {
            let then = open.push(Within::Clip(*style, extent_of(frame)));
            (seq![(Thing::Opens, then)], then)
        },
        DrawCommand::Enter { x, y, width, height } => {
            let w = match width {
                ChildWidth::Inherited => None,
                ChildWidth::Fixed(w) => Some(*w),
            };
            let then = open.push(Within::Place(*x, *y, w, *height));
            (seq![(Thing::Opens, then)], then)
        },
        DrawCommand::PushTransform { matrix, origin } => {
            let then = open.push(Within::Transform(*matrix, *origin));
            (seq![(Thing::Opens, then)], then)
        },
        DrawCommand::PopOpacity => (Seq::empty(), open.drop_last()),
        DrawCommand::PopClip => (Seq::empty(), open.drop_last()),
        DrawCommand::Leave => (Seq::empty(), open.drop_last()),
        DrawCommand::PopTransform => (Seq::empty(), open.drop_last()),
        DrawCommand::Shadows { style, frame } => (seq![(Thing::Shadows(*style, extent_of(frame)), open)], open),
        DrawCommand::Background { style, frame } => (seq![(Thing::Background(*style, extent_of(frame)), open)], open),
        DrawCommand::Border { style, frame } => (seq![(Thing::Border(*style, extent_of(frame)), open)], open),
        DrawCommand::Bookmark { level, label } => (seq![(Thing::Bookmark(level, label@), open)], open),
        DrawCommand::Marker { lines, width } => (seq![(Thing::Marker(lines@, *width), open)], open),
        DrawCommand::ColumnGap { rule, group, index } => (
            seq![(Thing::Gap(*rule, columns_of(*group), index as int), open)],
            open,
        ),
        DrawCommand::Leaf(leaf) => (seq![(Thing::Leaf(*leaf), open)], open),
    }
}

/// A size that the layout gave goes before one that was measured.
pub open spec fn best_size<P: Paint>(given: Option<Size<P::Length>>, measured: Option<Size<P::Length>>) -> Extent<P> {
    if given is Some {
        Extent::Given(given->0.width, given->0.height)
    } else if measured is Some {
        Extent::Given(measured->0.width, measured->0.height)
    } else {
        Extent::Available
    }
}

/// The box of a part that is visible: its shadows below its background below its
/// border.
pub open spec fn box_sight<P: Paint>(visible: bool, style: P::Style, extent: Extent<P>, open: Seq<Within<P>>) -> Sight<P> {
    if !visible {
        Seq::empty()
    } else {
        seq![
            (Thing::Shadows(style, extent), open),
            (Thing::Background(style, extent), open),
            (Thing::Border(style, extent), open),
        ]
    }
}

/// The rules between the first `k` of the columns of a group, each between a column
/// and the next.
pub open spec fn group_sight<P: Paint>(rule: P::Rule, group: ColumnRuleGeometry<P>, k: int, open: Seq<Within<P>>) -> Sight<P>
    decreases k,
{
    if k <= 1 {
        Seq::empty()
    } else {
        group_sight(rule, group, k - 1, open).push((Thing::Gap(rule, columns_of(group), k - 2), open))
    }
}

/// The rules between the columns of the first `k` of some groups, as far as a group
/// knows the height of each of its columns.
pub open spec fn groups_sight<P: Paint>(rule: P::Rule, groups: Seq<ColumnRuleGeometry<P>>, k: int, open: Seq<Within<P>>) -> Sight<P>
    decreases k,
{
    if k <= 0 || k > groups.len() {
        Seq::empty()
    } else {
        let group = groups[k - 1];
        groups_sight(rule, groups, k - 1, open) + (if group.col_heights@.len() == group.n {
            group_sight(rule, group, group.n as int, open)
        } else {
            Seq::empty()
        })
    }
}

/// The first `k` of some children, one after the other, each in its place.
pub open spec fn children_sight<P: Paint>(
    children: Seq<PositionedChild<P>>,
    k: int,
    width: Option<P::Length>,
    open: Seq<Within<P>>,
) -> Sight<P>
    decreases children, 0int, k,
{
    if k <= 0 || k > children.len() {
        Seq::empty()
    } else {
        let c = children[k - 1];
        let inside = open.push(Within::Place(c.x, c.y, width, c.height));
        children_sight(children, k - 1, width, open) + seq![(Thing::Opens, inside)] + part_sight::<P>(*c.child, inside)
    }
}

/// What is seen of a part.
pub open spec fn part_sight<P: Paint>(part: Pageable<P>, open: Seq<Within<P>>) -> Sight<P>
    decreases part, 1int, 0int,
{
    match part {
        Pageable::Block(b) => {
            let extent = best_size::<P>(b.layout_size, b.cached_size);
            let faded = open.push(Within::Opacity(b.opacity));
            let clipped = faded.push(Within::Clip(b.style, extent));
            seq![(Thing::Opens, faded)] + box_sight(b.visible, b.style, extent, faded) + seq![(Thing::Opens, clipped)]
                + children_sight(b.children@, b.children@.len() as int, None, clipped)
        },
        Pageable::Table(t) => {
            let height = if t.layout_size is Some { t.layout_size->0.height } else { t.cached_height };
            let extent = Extent::Given(t.width, height);
            let faded = open.push(Within::Opacity(t.opacity));
            let clipped = faded.push(Within::Clip(t.style, extent));
            seq![(Thing::Opens, faded)] + box_sight(t.visible, t.style, extent, faded) + seq![(Thing::Opens, clipped)]
                + children_sight(t.header_cells@, t.header_cells@.len() as int, Some(t.width), clipped)
                + children_sight(t.body_cells@, t.body_cells@.len() as int, Some(t.width), clipped)
        },
        Pageable::ListItem(i) => {
            let faded = open.push(Within::Opacity(i.opacity));
            seq![(Thing::Opens, faded)] + (match i.marker {
                ListItemMarker::Text { lines, width } => if i.visible && lines@.len() > 0 {
                    seq![(Thing::Marker(lines@, width), faded)]
                } else {
                    Seq::empty()
                },
                _ => Seq::empty(),
            }) + part_sight::<P>(*i.body, faded)
        },
        Pageable::BookmarkMarker(m) => seq![(Thing::Bookmark(m.level, m.label@), open)],
        Pageable::BookmarkMarkerWrapper(w) => seq![(Thing::Bookmark(w.marker.level, w.marker.label@), open)]
            + part_sight::<P>(*w.child, open),
        Pageable::TransformWrapper(w) => {
            let moved = open.push(Within::Transform(w.matrix, w.origin));
            seq![(Thing::Opens, moved)] + part_sight::<P>(*w.inner, moved)
        },
        Pageable::MulticolRule(c) => part_sight::<P>(*c.child, open) + groups_sight(
            c.rule,
            c.groups@,
            c.groups@.len() as int,
            open,
        ),
        Pageable::CounterOpWrapper(w) => part_sight::<P>(*w.child, open),
        Pageable::StringSetWrapper(w) => part_sight::<P>(*w.child, open),
        Pageable::RunningElementWrapper(w) => part_sight::<P>(*w.child, open),
        Pageable::Leaf(leaf, _) => seq![(Thing::Leaf(leaf), open)],
        Pageable::Spacer(_) => Seq::empty(),
        Pageable::StringSet(_) => Seq::empty(),
        Pageable::RunningElementMarker(_) => Seq::empty(),
        Pageable::CounterOpMarker(_) => Seq::empty(),
    }
}

proof fn lemma_seen_both<'a, P: Paint + 'a>(a: Seq<DrawCommand<'a, P>>, b: Seq<DrawCommand<'a, P>>, open: Seq<Within<P>>)
    ensures
        seen(a + b, open) == (seen(a, open).0 + seen(b, seen(a, open).1).0, seen(b, seen(a, open).1).1),
    decreases a.len(),
{
    if a.len() == 0 {
        assert(a + b =~= b);
        assert(Seq::<(Thing<P>, Seq<Within<P>>)>::empty() + seen(b, open).0 =~= seen(b, open).0);
    } else {
        assert((a + b).drop_first() =~= a.drop_first() + b);
        let (thing, then) = seen_one(a[0], open);
        lemma_seen_both(a.drop_first(), b, then);
        let rest = seen(a.drop_first(), then);
        assert(thing + (rest.0 + seen(b, rest.1).0) =~= thing + rest.0 + seen(b, rest.1).0);
    }
}

proof fn lemma_seen_one<'a, P: Paint + 'a>(command: DrawCommand<'a, P>, open: Seq<Within<P>>)
    ensures
        seen(seq![command], open) == seen_one(command, open),
{
    assert(seq![command].drop_first() =~= Seq::<DrawCommand<'a, P>>::empty());
    reveal_with_fuel(seen, 2);
    assert(seen_one(command, open).0 + Seq::<(Thing<P>, Seq<Within<P>>)>::empty() =~= seen_one(command, open).0);
}

proof fn lemma_box_sight<'a, P: Paint + 'a>(visible: bool, style: &'a P::Style, frame: Frame<'a, P>, open: Seq<Within<P>>)
    ensures
        seen(own_box(visible, style, frame), open) == (box_sight(visible, *style, extent_of(frame), open), open),
{
    if visible {
        let shadows = DrawCommand::Shadows { style, frame };
        let background = DrawCommand::Background { style, frame };
        let border = DrawCommand::Border { style, frame };
        assert(own_box(visible, style, frame) =~= seq![shadows] + seq![background] + seq![border]);
        lemma_seen_both(seq![shadows] + seq![background], seq![border], open);
        lemma_seen_both(seq![shadows], seq![background], open);
        lemma_seen_one(shadows, open);
        lemma_seen_one(background, open);
        lemma_seen_one(border, open);
        assert(seen(own_box(visible, style, frame), open).0 =~= box_sight(visible, *style, extent_of(frame), open));
    } else {
        assert(own_box(visible, style, frame) =~= Seq::<DrawCommand<'a, P>>::empty());
    }
}

proof fn lemma_group_sight<'a, P: Paint + 'a>(rule: &'a P::Rule, group: &'a ColumnRuleGeometry<P>, k: int, open: Seq<Within<P>>)
    requires
        1 <= k <= group.n,
        group.col_heights@.len() == group.n,
    ensures
        seen(gaps(rule, group).take(k - 1), open) == (group_sight(*rule, *group, k, open), open),
    decreases k,
{
    let all = gaps(rule, group);
    if k == 1 {
        assert(all.take(0) =~= Seq::<DrawCommand<'a, P>>::empty());
    } else {
        lemma_group_sight(rule, group, k - 1, open);
        let last = DrawCommand::ColumnGap { rule, group, index: (k - 2) as usize };
        assert(all.take(k - 1) =~= all.take(k - 2) + seq![last]);
        lemma_seen_both(all.take(k - 2), seq![last], open);
        lemma_seen_one(last, open);
        assert(seen(all.take(k - 1), open).0 =~= group_sight(*rule, *group, k, open));
    }
}

proof fn lemma_groups_sight<'a, P: Paint + 'a>(rule: &'a P::Rule, groups: &'a Vec<ColumnRuleGeometry<P>>, k: int, open: Seq<Within<P>>)
    requires
        0 <= k <= groups@.len(),
    ensures
        seen(all_gaps(rule, groups, k), open).1 == open,
        groups_sight(*rule, groups@, k, open) + seen(all_gaps(rule, groups, k), open).0 == groups_sight(
            *rule,
            groups@,
            groups@.len() as int,
            open,
        ),
    decreases groups@.len() - k,
{
    let done = groups_sight(*rule, groups@, k, open);
    if k == groups@.len() {
        assert(done + Seq::<(Thing<P>, Seq<Within<P>>)>::empty() =~= done);
    } else {
        let group = &groups@[k];
        lemma_groups_sight(rule, groups, k + 1, open);
        lemma_seen_both(gaps(rule, group), all_gaps(rule, groups, k + 1), open);
        let one: Sight<P> = if group.col_heights@.len() == group.n {
            group_sight(*rule, *group, group.n as int, open)
        } else {
            Seq::empty()
        };
        assert(seen(gaps(rule, group), open) == (one, open)) by {
            if group.col_heights@.len() == group.n && group.n >= 1 {
                lemma_group_sight(rule, group, group.n as int, open);
                if group.n >= 2 {
                    assert(gaps(rule, group).take(group.n - 1) =~= gaps(rule, group));
                }
            }
        }
        let rest = seen(all_gaps(rule, groups, k + 1), open).0;
        assert(groups_sight(*rule, groups@, k + 1, open) == done + one);
        assert(done + (one + rest) =~= (done + one) + rest);
    }
}

proof fn lemma_children_sight<'a, P: Paint + 'a>(
    children: Seq<PositionedChild<P>>,
    width: ChildWidth<'a, P>,
    k: int,
    open: Seq<Within<P>>,
)
    requires
        0 <= k <= children.len(),
    ensures
        ({
            let w = match width {
                ChildWidth::Inherited => None,
                ChildWidth::Fixed(w) => Some(*w),
            };
            &&& seen(children_plan(children, width, k), open).1 == open
            &&& children_sight(children, k, w, open) + seen(children_plan(children, width, k), open).0 == children_sight(
                children,
                children.len() as int,
                w,
                open,
            )
        }),
    decreases children, 0int, children.len() - k,
{
    let w = match width {
        ChildWidth::Inherited => None,
        ChildWidth::Fixed(w) => Some(*w),
    };
    let done = children_sight(children, k, w, open);
    if k == children.len() {
        assert(done + Seq::<(Thing<P>, Seq<Within<P>>)>::empty() =~= done);
    } else {
        let c = children[k];
        let enter = DrawCommand::Enter { x: &c.x, y: &c.y, width, height: &c.height };
        let inner = plan::<P>(&*c.child);
        let leave = seq![DrawCommand::<'a, P>::Leave];
        let rest = children_plan(children, width, k + 1);
        let inside = open.push(Within::Place(c.x, c.y, w, c.height));
        lemma_seen_both(seq![enter] + inner + leave, rest, open);
        lemma_seen_both(seq![enter] + inner, leave, open);
        lemma_seen_both(seq![enter], inner, open);
        lemma_seen_one(enter, open);
        law_everything_is_drawn::<P>(&*c.child, inside);
        lemma_seen_one(DrawCommand::<'a, P>::Leave, inside);
        assert(inside.drop_last() =~= open);
        lemma_children_sight(children, width, k + 1, open);
        let here = seq![(Thing::<P>::Opens, inside)] + part_sight::<P>(*c.child, inside);
        let more = seen(rest, open).0;
        assert(seen(children_plan(children, width, k), open).0 =~= here + more);
        assert(children_sight(children, k + 1, w, open) =~= done + here);
        assert(done + (here + more) =~= (done + here) + more);
    }
}

/// A box with things in it, clipped, inside an opacity.
proof fn lemma_framed_sight<'a, P: Paint + 'a>(
    opacity: &'a P::Opacity,
    visible: bool,
    style: &'a P::Style,
    frame: Frame<'a, P>,
    inner: Seq<DrawCommand<'a, P>>,
    sight: Sight<P>,
    open: Seq<Within<P>>,
)
    requires
        ({
            let clipped = open.push(Within::Opacity(*opacity)).push(Within::Clip(*style, extent_of(frame)));
            seen(inner, clipped) == (sight, clipped)
        }),
    ensures
        ({
            let faded = open.push(Within::Opacity(*opacity));
            let clipped = faded.push(Within::Clip(*style, extent_of(frame)));
            seen(
                seq![DrawCommand::PushOpacity(opacity)] + own_box(visible, style, frame) + seq![
                    DrawCommand::PushClip { style, frame },
                ] + inner + seq![DrawCommand::PopClip, DrawCommand::PopOpacity],
                open,
            ) == (
                seq![(Thing::<P>::Opens, faded)] + box_sight(visible, *style, extent_of(frame), faded) + seq![
                    (Thing::<P>::Opens, clipped),
                ] + sight,
                open,
            )
        }),
{
    let faded = open.push(Within::Opacity(*opacity));
    let clipped = faded.push(Within::Clip(*style, extent_of(frame)));
    let push = DrawCommand::PushOpacity(opacity);
    let clip = DrawCommand::PushClip { style, frame };
    let own = own_box(visible, style, frame);
    let pops = seq![DrawCommand::<'a, P>::PopClip, DrawCommand::PopOpacity];
    assert(pops =~= seq![DrawCommand::<'a, P>::PopClip] + seq![DrawCommand::<'a, P>::PopOpacity]);
    lemma_seen_both(seq![push] + own + seq![clip] + inner, pops, open);
    lemma_seen_both(seq![push] + own + seq![clip], inner, open);
    lemma_seen_both(seq![push] + own, seq![clip], open);
    lemma_seen_both(seq![push], own, open);
    lemma_seen_one(push, open);
    lemma_box_sight(visible, style, frame, faded);
    lemma_seen_one(clip, faded);
    lemma_seen_both(seq![DrawCommand::<'a, P>::PopClip], seq![DrawCommand::<'a, P>::PopOpacity], clipped);
    lemma_seen_one(DrawCommand::<'a, P>::PopClip, clipped);
    assert(clipped.drop_last() =~= faded);
    lemma_seen_one(DrawCommand::<'a, P>::PopOpacity, faded);
    assert(faded.drop_last() =~= open);
    let sum = seq![(Thing::<P>::Opens, faded)] + box_sight(visible, *style, extent_of(frame), faded) + seq![
        (Thing::<P>::Opens, clipped),
    ] + sight;
    assert(sum + (Seq::<(Thing<P>, Seq<Within<P>>)>::empty() + Seq::<(Thing<P>, Seq<Within<P>>)>::empty()) =~= sum);
}

/// The commands that draw a part show all that is to be seen of it and nothing else:
/// every box, child, leaf, marker, bookmark and rule, in their order, each at its
/// place and inside its groups.
pub proof fn law_everything_is_drawn<P: Paint>(node: &Pageable<P>, open: Seq<Within<P>>)
    ensures
        seen(plan::<P>(node), open) == (part_sight::<P>(*node, open), open),
    decreases node, 1int, 0int,
{
    match node {
        Pageable::Block(block) => {
            let frame = block_frame(block);
            let clipped = open.push(Within::Opacity(block.opacity)).push(Within::Clip(block.style, extent_of(frame)));
            let inner = children_plan(block.children@, ChildWidth::Inherited, 0);
            let sight = children_sight(block.children@, block.children@.len() as int, None, clipped);
            lemma_children_sight(block.children@, ChildWidth::Inherited, 0, clipped);
            assert(children_sight(block.children@, 0, None, clipped) + seen(inner, clipped).0 =~= seen(inner, clipped).0);
            assert(extent_of(frame) == best_size::<P>(block.layout_size, block.cached_size));
            lemma_framed_sight(&block.opacity, block.visible, &block.style, frame, inner, sight, open);
        },
        Pageable::Table(table) => {
            let frame = table_frame(table);
            let faded = open.push(Within::Opacity(table.opacity));
            let clipped = faded.push(Within::Clip(table.style, extent_of(frame)));
            let header = children_plan(table.header_cells@, ChildWidth::Fixed(&table.width), 0);
            let body = children_plan(table.body_cells@, ChildWidth::Fixed(&table.width), 0);
            let head = children_sight(table.header_cells@, table.header_cells@.len() as int, Some(table.width), clipped);
            let rest = children_sight(table.body_cells@, table.body_cells@.len() as int, Some(table.width), clipped);
            lemma_children_sight(table.header_cells@, ChildWidth::Fixed(&table.width), 0, clipped);
            lemma_children_sight(table.body_cells@, ChildWidth::Fixed(&table.width), 0, clipped);
            assert(children_sight(table.header_cells@, 0, Some(table.width), clipped) + seen(header, clipped).0
                =~= seen(header, clipped).0);
            assert(children_sight(table.body_cells@, 0, Some(table.width), clipped) + seen(body, clipped).0 =~= seen(
                body,
                clipped,
            ).0);
            lemma_seen_both(header, body, clipped);
            lemma_framed_sight(&table.opacity, table.visible, &table.style, frame, header + body, head + rest, open);
            let push = seq![DrawCommand::PushOpacity(&table.opacity)] + own_box(table.visible, &table.style, frame) + seq![
                DrawCommand::PushClip { style: &table.style, frame },
            ];
            assert(push + (header + body) =~= push + header + body);
            let lead = seq![(Thing::<P>::Opens, faded)] + box_sight(
                table.visible,
                table.style,
                extent_of(frame),
                faded,
            ) + seq![(Thing::<P>::Opens, clipped)];
            assert(lead + (head + rest) =~= lead + head + rest);
        },
        Pageable::ListItem(item) => {
            let push = DrawCommand::PushOpacity(&item.opacity);
            let inner = plan::<P>(&*item.body);
            let marker = marker_lines(item);
            let faded = open.push(Within::Opacity(item.opacity));
            lemma_seen_both(seq![push] + marker + inner, seq![DrawCommand::PopOpacity], open);
            lemma_seen_both(seq![push] + marker, inner, open);
            lemma_seen_both(seq![push], marker, open);
            lemma_seen_one(push, open);
            if marker.len() > 0 {
                assert(marker =~= seq![marker[0]]);
                lemma_seen_one(marker[0], faded);
            }
            law_everything_is_drawn::<P>(&*item.body, faded);
            lemma_seen_one::<P>(DrawCommand::PopOpacity, faded);
            assert(faded.drop_last() =~= open);
            assert(seen(plan::<P>(node), open).0 =~= part_sight::<P>(*node, open));
        },
        Pageable::BookmarkMarker(marker) => {
            lemma_seen_one::<P>(DrawCommand::Bookmark { level: marker.level, label: &marker.label }, open);
        },
        Pageable::BookmarkMarkerWrapper(wrapper) => {
            let mark: DrawCommand<'_, P> = DrawCommand::Bookmark { level: wrapper.marker.level, label: &wrapper.marker.label };
            lemma_seen_both(seq![mark], plan::<P>(&*wrapper.child), open);
            lemma_seen_one(mark, open);
            law_everything_is_drawn::<P>(&*wrapper.child, open);
        },
        Pageable::TransformWrapper(wrapper) => {
            let push = DrawCommand::PushTransform { matrix: &wrapper.matrix, origin: &wrapper.origin };
            let inner = plan::<P>(&*wrapper.inner);
            let moved = open.push(Within::Transform(wrapper.matrix, wrapper.origin));
            lemma_seen_both(seq![push] + inner, seq![DrawCommand::PopTransform], open);
            lemma_seen_both(seq![push], inner, open);
            lemma_seen_one(push, open);
            law_everything_is_drawn::<P>(&*wrapper.inner, moved);
            lemma_seen_one::<P>(DrawCommand::PopTransform, moved);
            assert(moved.drop_last() =~= open);
            assert(seen(plan::<P>(node), open).0 =~= part_sight::<P>(*node, open));
        },
        Pageable::MulticolRule(columns) => {
            let rules = all_gaps(&columns.rule, &columns.groups, 0);
            lemma_seen_both(plan::<P>(&*columns.child), rules, open);
            law_everything_is_drawn::<P>(&*columns.child, open);
            lemma_groups_sight(&columns.rule, &columns.groups, 0, open);
            assert(groups_sight(columns.rule, columns.groups@, 0, open) + seen(rules, open).0 =~= seen(rules, open).0);
        },
        Pageable::CounterOpWrapper(wrapper) => {
            law_everything_is_drawn::<P>(&*wrapper.child, open);
        },
        Pageable::StringSetWrapper(wrapper) => {
            law_everything_is_drawn::<P>(&*wrapper.child, open);
        },
        Pageable::RunningElementWrapper(wrapper) => {
            law_everything_is_drawn::<P>(&*wrapper.child, open);
        },
        Pageable::Leaf(content, _) => {
            lemma_seen_one::<P>(DrawCommand::Leaf(content), open);
        },
        _ => {},
    }
}

/// The leaves that commands draw, and how many children they place.
pub open spec fn tally<'a, P: Paint + 'a>(commands: Seq<DrawCommand<'a, P>>) -> (Seq<P::Leaf>, nat)
    decreases commands.len(),
{
    if commands.len() == 0 {
        (Seq::empty(), 0)
    } else {
        let (leaves, places) = tally(commands.drop_last());
        match commands.last() {
            DrawCommand::Leaf(leaf) => (leaves.push(*leaf), places),
            DrawCommand::Enter { .. } => (leaves, places + 1),
            _ => (leaves, places),
        }
    }
}

/// The leaves of a part and of all that it holds, and how many children have a place
/// in it.
pub open spec fn census<P: Paint>(part: Pageable<P>) -> (Seq<P::Leaf>, nat)
    decreases part, 1int, 0int,
{
    match part {
        Pageable::Block(b) => census_of_all(b.children@, b.children@.len() as int),
        Pageable::Table(t) => {
            let head = census_of_all(t.header_cells@, t.header_cells@.len() as int);
            let body = census_of_all(t.body_cells@, t.body_cells@.len() as int);
            (head.0 + body.0, head.1 + body.1)
        },
        Pageable::ListItem(i) => census::<P>(*i.body),
        Pageable::BookmarkMarkerWrapper(w) => census::<P>(*w.child),
        Pageable::TransformWrapper(w) => census::<P>(*w.inner),
        Pageable::MulticolRule(c) => census::<P>(*c.child),
        Pageable::CounterOpWrapper(w) => census::<P>(*w.child),
        Pageable::StringSetWrapper(w) => census::<P>(*w.child),
        Pageable::RunningElementWrapper(w) => census::<P>(*w.child),
        Pageable::Leaf(leaf, _) => (seq![leaf], 0),
        _ => (Seq::empty(), 0),
    }
}

/// The same of the first `k` of some children.
pub open spec fn census_of_all<P: Paint>(children: Seq<PositionedChild<P>>, k: int) -> (Seq<P::Leaf>, nat)
    decreases children, 0int, k,
{
    if k <= 0 || k > children.len() {
        (Seq::empty(), 0)
    } else {
        let before = census_of_all(children, k - 1);
        let one = census::<P>(*children[k - 1].child);
        (before.0 + one.0, before.1 + 1 + one.1)
    }
}

proof fn lemma_tally_both<'a, P: Paint + 'a>(a: Seq<DrawCommand<'a, P>>, b: Seq<DrawCommand<'a, P>>)
    ensures
        tally(a + b) == (tally(a).0 + tally(b).0, tally(a).1 + tally(b).1),
    decreases b.len(),
{
    if b.len() == 0 {
        assert(a + b =~= a);
        assert(tally(a).0 + Seq::<P::Leaf>::empty() =~= tally(a).0);
    } else {
        assert((a + b).drop_last() =~= a + b.drop_last());
        lemma_tally_both(a, b.drop_last());
        assert(tally(a + b).0 =~= tally(a).0 + tally(b).0);
    }
}

proof fn lemma_tally_none<'a, P: Paint + 'a>(a: Seq<DrawCommand<'a, P>>)
    requires
        forall|i: int| 0 <= i < a.len() ==> !(#[trigger] a[i] is Leaf) && !(a[i] is Enter),
    ensures
        tally(a) == (Seq::<P::Leaf>::empty(), 0nat),
    decreases a.len(),
{
    if a.len() > 0 {
        assert(!(a[a.len() - 1] is Leaf));
        assert forall|i: int| 0 <= i < a.drop_last().len() implies !(#[trigger] a.drop_last()[i] is Leaf)
            && !(a.drop_last()[i] is Enter) by {
            assert(!(a[i] is Leaf));
        }
        lemma_tally_none(a.drop_last());
    }
}

/// Commands without leaves and children around others do not change their tally.
proof fn lemma_tally_around<'a, P: Paint + 'a>(
    before: Seq<DrawCommand<'a, P>>,
    inner: Seq<DrawCommand<'a, P>>,
    behind: Seq<DrawCommand<'a, P>>,
)
    requires
        forall|i: int| 0 <= i < before.len() ==> !(#[trigger] before[i] is Leaf) && !(before[i] is Enter),
        forall|i: int| 0 <= i < behind.len() ==> !(#[trigger] behind[i] is Leaf) && !(behind[i] is Enter),
    ensures
        tally(before + inner + behind) == tally(inner),
{
    lemma_tally_none(before);
    lemma_tally_none(behind);
    lemma_tally_both(before + inner, behind);
    lemma_tally_both(before, inner);
    assert(Seq::<P::Leaf>::empty() + tally(inner).0 =~= tally(inner).0);
    assert(tally(inner).0 + Seq::<P::Leaf>::empty() =~= tally(inner).0);
}

proof fn lemma_gaps_tally<'a, P: Paint + 'a>(rule: &'a P::Rule, groups: &'a Vec<ColumnRuleGeometry<P>>, k: int)
    requires
        0 <= k,
    ensures
        forall|i: int| 0 <= i < all_gaps(rule, groups, k).len() ==> #[trigger] all_gaps(rule, groups, k)[i] is ColumnGap,
    decreases groups@.len() - k,
{
    if k < groups@.len() {
        lemma_gaps_tally(rule, groups, k + 1);
    }
}

proof fn lemma_children_tally<'a, P: Paint + 'a>(children: Seq<PositionedChild<P>>, width: ChildWidth<'a, P>, k: int)
    requires
        0 <= k <= children.len(),
    ensures
        ({
            let done = census_of_all(children, k);
            let rest = tally(children_plan(children, width, k));
            (done.0 + rest.0, done.1 + rest.1) == census_of_all(children, children.len() as int)
        }),
    decreases children, 0int, children.len() - k,
{
    let done = census_of_all(children, k);
    if k == children.len() {
        assert(done.0 + Seq::<P::Leaf>::empty() =~= done.0);
    } else {
        let c = children[k];
        let enter = DrawCommand::Enter { x: &c.x, y: &c.y, width, height: &c.height };
        let inner = plan::<P>(&*c.child);
        let leave = seq![DrawCommand::<'a, P>::Leave];
        let rest = children_plan(children, width, k + 1);
        lemma_tally_both(seq![enter] + inner + leave, rest);
        lemma_tally_both(seq![enter] + inner, leave);
        lemma_tally_both(seq![enter], inner);
        lemma_tally_none(leave);
        reveal_with_fuel(tally, 2);
        assert(seq![enter].drop_last() =~= Seq::<DrawCommand<'a, P>>::empty());
        law_leaves_are_drawn_in_order::<P>(&*c.child);
        lemma_children_tally(children, width, k + 1);
        let one = census::<P>(*c.child);
        assert(tally(children_plan(children, width, k)).0 =~= one.0 + tally(rest).0);
        assert(done.0 + (one.0 + tally(rest).0) =~= (done.0 + one.0) + tally(rest).0);
    }
}

/// The leaves that are drawn are all the leaves of a part, each once, in the order of
/// the tree, a table's header before its body, and every child is placed once.
pub proof fn law_leaves_are_drawn_in_order<P: Paint>(node: &Pageable<P>)
    ensures
        tally(plan::<P>(node)) == census::<P>(*node),
    decreases node, 1int, 0int,
{
    match node {
        Pageable::Block(block) => {
            let frame = block_frame(block);
            let inner = children_plan(block.children@, ChildWidth::Inherited, 0);
            lemma_children_tally(block.children@, ChildWidth::Inherited, 0);
            assert(Seq::<P::Leaf>::empty() + tally(inner).0 =~= tally(inner).0);
            let before = seq![DrawCommand::PushOpacity(&block.opacity)] + own_box(block.visible, &block.style, frame) + seq![
                DrawCommand::PushClip { style: &block.style, frame },
            ];
            lemma_tally_around(before, inner, seq![DrawCommand::PopClip, DrawCommand::PopOpacity]);
        },
        Pageable::Table(table) => {
            let frame = table_frame(table);
            let header = children_plan(table.header_cells@, ChildWidth::Fixed(&table.width), 0);
            let body = children_plan(table.body_cells@, ChildWidth::Fixed(&table.width), 0);
            lemma_children_tally(table.header_cells@, ChildWidth::Fixed(&table.width), 0);
            lemma_children_tally(table.body_cells@, ChildWidth::Fixed(&table.width), 0);
            assert(Seq::<P::Leaf>::empty() + tally(header).0 =~= tally(header).0);
            assert(Seq::<P::Leaf>::empty() + tally(body).0 =~= tally(body).0);
            lemma_tally_both(header, body);
            let before = seq![DrawCommand::PushOpacity(&table.opacity)] + own_box(table.visible, &table.style, frame) + seq![
                DrawCommand::PushClip { style: &table.style, frame },
            ];
            lemma_tally_around(before, header + body, seq![DrawCommand::PopClip, DrawCommand::PopOpacity]);
            assert(before + (header + body) =~= before + header + body);
        },
        Pageable::ListItem(item) => {
            law_leaves_are_drawn_in_order::<P>(&*item.body);
            let before = seq![DrawCommand::PushOpacity(&item.opacity)] + marker_lines(item);
            lemma_tally_around(before, plan::<P>(&*item.body), seq![DrawCommand::PopOpacity]);
        },
        Pageable::BookmarkMarker(marker) => {
            lemma_tally_none(plan::<P>(node));
        },
        Pageable::BookmarkMarkerWrapper(wrapper) => {
            law_leaves_are_drawn_in_order::<P>(&*wrapper.child);
            let mark: DrawCommand<'_, P> = DrawCommand::Bookmark { level: wrapper.marker.level, label: &wrapper.marker.label };
            let inner = plan::<P>(&*wrapper.child);
            lemma_tally_around(seq![mark], inner, Seq::empty());
            assert(seq![mark] + inner + Seq::<DrawCommand<'_, P>>::empty() =~= plan::<P>(node));
        },
        Pageable::TransformWrapper(wrapper) => {
            law_leaves_are_drawn_in_order::<P>(&*wrapper.inner);
            lemma_tally_around(
                seq![DrawCommand::PushTransform { matrix: &wrapper.matrix, origin: &wrapper.origin }],
                plan::<P>(&*wrapper.inner),
                seq![DrawCommand::PopTransform],
            );
        },
        Pageable::MulticolRule(columns) => {
            law_leaves_are_drawn_in_order::<P>(&*columns.child);
            let rules = all_gaps(&columns.rule, &columns.groups, 0);
            lemma_gaps_tally(&columns.rule, &columns.groups, 0);
            let inner = plan::<P>(&*columns.child);
            lemma_tally_around(Seq::empty(), inner, rules);
            assert(Seq::<DrawCommand<'_, P>>::empty() + inner + rules =~= plan::<P>(node));
        },
        Pageable::CounterOpWrapper(wrapper) => {
            law_leaves_are_drawn_in_order::<P>(&*wrapper.child);
        },
        Pageable::StringSetWrapper(wrapper) => {
            law_leaves_are_drawn_in_order::<P>(&*wrapper.child);
        },
        Pageable::RunningElementWrapper(wrapper) => {
            law_leaves_are_drawn_in_order::<P>(&*wrapper.child);
        },
        Pageable::Leaf(content, _) => {
            reveal_with_fuel(tally, 2);
            assert(plan::<P>(node).drop_last() =~= Seq::<DrawCommand<'_, P>>::empty());
            assert(tally(plan::<P>(node)).0 =~= seq![*content]);
        },
        _ => {},
    }
}

} // verus!
