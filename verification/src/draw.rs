//! The commands that draw a part of a page, in order.

use crate::drawables::{ColumnRuleGeometry, ListItemMarker};
use crate::pageable::{
    BlockPageable, ListItemPageable, MulticolRulePageable, Pageable, PositionedChild, TablePageable,
};
use crate::paint::{Paint, Size};
use vstd::prelude::*;

verus! {

/// The box that something is drawn in.
pub enum Frame<'a, P: Paint> {
    /// A box of this size.
    Sized(&'a Size<P::Length>),
    /// A box of this width and height.
    Sides(&'a P::Length, &'a P::Length),
    /// All the space that there is.
    Available,
}

/// The width that a child has.
pub enum ChildWidth<'a, P: Paint> {
    /// That of its parent.
    Inherited,
    Fixed(&'a P::Length),
}

/// A command to the canvas.
pub enum DrawCommand<'a, P: Paint> {
    /// What follows is drawn with an opacity, until it is popped.
    PushOpacity(&'a P::Opacity),
    PopOpacity,
    Shadows { style: &'a P::Style, frame: Frame<'a, P> },
    Background { style: &'a P::Style, frame: Frame<'a, P> },
    Border { style: &'a P::Style, frame: Frame<'a, P> },
    /// What follows is clipped to the padding box, if the style clips, until
    /// it is popped.
    PushClip { style: &'a P::Style, frame: Frame<'a, P> },
    PopClip,
    /// What follows is drawn at an offset and in other space, until it is
    /// left.
    Enter { x: &'a P::Length, y: &'a P::Length, width: ChildWidth<'a, P>, height: &'a P::Length },
    Leave,
    /// What follows is transformed about a point, until it is popped.
    PushTransform { matrix: &'a P::Matrix, origin: &'a P::Point },
    PopTransform,
    /// The place is an entry of the outline.
    Bookmark { level: u8, label: &'a String },
    /// The lines of a list marker stand left of the place.
    Marker { lines: &'a Vec<P::Line>, width: &'a P::Length },
    /// A rule between two columns of a group, if both have content.
    ColumnGap { rule: &'a P::Rule, group: &'a ColumnRuleGeometry<P>, index: usize },
    /// What only the renderer can draw.
    Leaf(&'a P::Leaf),
}

/// The box of a block: its size, if it has one.
pub open spec fn block_frame<'a, P: Paint>(block: &'a BlockPageable<P>) -> Frame<'a, P> {
    match (&block.layout_size, &block.cached_size) {
        (Some(size), _) => Frame::Sized(size),
        (None, Some(size)) => Frame::Sized(size),
        (None, None) => Frame::Available,
    }
}

/// The box of a table: its width, and the height that the layout gave or that
/// was measured.
pub open spec fn table_frame<'a, P: Paint>(table: &'a TablePageable<P>) -> Frame<'a, P> {
    match &table.layout_size {
        Some(size) => Frame::Sides(&table.width, &size.height),
        None => Frame::Sides(&table.width, &table.cached_height),
    }
}

/// A box's own drawing: nothing where it is hidden.
pub open spec fn own_box<'a, P: Paint>(visible: bool, style: &'a P::Style, frame: Frame<'a, P>) -> Seq<DrawCommand<'a, P>> {
    if visible {
        seq![
            DrawCommand::Shadows { style, frame },
            DrawCommand::Background { style, frame },
            DrawCommand::Border { style, frame },
        ]
    } else {
        Seq::empty()
    }
}

/// The gaps between the columns of a group that says how many columns it has
/// and gives the height of each.
pub open spec fn gaps<'a, P: Paint>(rule: &'a P::Rule, group: &'a ColumnRuleGeometry<P>) -> Seq<DrawCommand<'a, P>> {
    if group.n < 2 || group.col_heights@.len() != group.n {
        Seq::empty()
    } else {
        Seq::new((group.n - 1) as nat, |i: int| DrawCommand::ColumnGap { rule, group, index: i as usize })
    }
}

/// The gaps of the groups from the `k`-th on.
pub open spec fn all_gaps<'a, P: Paint>(rule: &'a P::Rule, groups: &'a Vec<ColumnRuleGeometry<P>>, k: int) -> Seq<
    DrawCommand<'a, P>,
>
    decreases groups@.len() - k,
{
    if k >= groups@.len() {
        Seq::empty()
    } else {
        gaps(rule, &groups@[k]) + all_gaps(rule, groups, k + 1)
    }
}

/// The marker of a list item that has lines.
pub open spec fn marker_lines<'a, P: Paint>(item: &'a ListItemPageable<P>) -> Seq<DrawCommand<'a, P>> {
    match &item.marker {
        ListItemMarker::Text { lines, width } => if item.visible && lines@.len() > 0 {
            seq![DrawCommand::Marker { lines, width }]
        } else {
            Seq::empty()
        },
        _ => Seq::empty(),
    }
}

/// The commands that draw children, in order, each at its place.
pub open spec fn children_plan<'a, P: Paint>(children: Seq<PositionedChild<P>>, width: ChildWidth<'a, P>, k: int) -> Seq<
    DrawCommand<'a, P>,
>
    decreases children, 0int, children.len() - k,
{
    if k < 0 || k >= children.len() {
        Seq::empty()
    } else {
        let c = children[k];
        seq![DrawCommand::Enter { x: &c.x, y: &c.y, width, height: &c.height }] + plan::<P>(&*c.child) + seq![DrawCommand::Leave]
            + children_plan(children, width, k + 1)
    }
}

/// The commands that draw a part. A hidden block leaves out its own box and
/// draws its children all the same; boxes are drawn outside their clip.
pub open spec fn plan<'a, P: Paint>(node: &'a Pageable<P>) -> Seq<DrawCommand<'a, P>>
    decreases node, 1int, 0int,
{
    match node {
        Pageable::Block(block) => seq![DrawCommand::PushOpacity(&block.opacity)] + own_box(
            block.visible,
            &block.style,
            block_frame(block),
        ) + seq![DrawCommand::PushClip { style: &block.style, frame: block_frame(block) }] + children_plan(
            block.children@,
            ChildWidth::Inherited,
            0,
        ) + seq![DrawCommand::PopClip, DrawCommand::PopOpacity],
        Pageable::Table(table) => seq![DrawCommand::PushOpacity(&table.opacity)] + own_box(
            table.visible,
            &table.style,
            table_frame(table),
        ) + seq![DrawCommand::PushClip { style: &table.style, frame: table_frame(table) }] + children_plan(
            table.header_cells@,
            ChildWidth::Fixed(&table.width),
            0,
        ) + children_plan(table.body_cells@, ChildWidth::Fixed(&table.width), 0) + seq![
            DrawCommand::PopClip,
            DrawCommand::PopOpacity,
        ],
        Pageable::ListItem(item) => seq![DrawCommand::PushOpacity(&item.opacity)] + marker_lines(item) + plan::<P>(&*item.body)
            + seq![DrawCommand::PopOpacity],
        Pageable::BookmarkMarker(marker) => seq![DrawCommand::Bookmark { level: marker.level, label: &marker.label }],
        Pageable::BookmarkMarkerWrapper(wrapper) => seq![
            DrawCommand::Bookmark { level: wrapper.marker.level, label: &wrapper.marker.label },
        ] + plan::<P>(&*wrapper.child),
        Pageable::TransformWrapper(wrapper) => seq![
            DrawCommand::PushTransform { matrix: &wrapper.matrix, origin: &wrapper.origin },
        ] + plan::<P>(&*wrapper.inner) + seq![DrawCommand::PopTransform],
        Pageable::MulticolRule(columns) => plan::<P>(&*columns.child) + all_gaps(&columns.rule, &columns.groups, 0),
        Pageable::CounterOpWrapper(wrapper) => plan::<P>(&*wrapper.child),
        Pageable::StringSetWrapper(wrapper) => plan::<P>(&*wrapper.child),
        Pageable::RunningElementWrapper(wrapper) => plan::<P>(&*wrapper.child),
        Pageable::Leaf(content, _) => seq![DrawCommand::Leaf(content)],
        Pageable::Spacer(_) => Seq::empty(),
        Pageable::StringSet(_) => Seq::empty(),
        Pageable::RunningElementMarker(_) => Seq::empty(),
        Pageable::CounterOpMarker(_) => Seq::empty(),
    }
}

fn frame_of_block<'a, P: Paint>(block: &'a BlockPageable<P>) -> (r: Frame<'a, P>)
    ensures
        r == block_frame(block),
{
    match &block.layout_size {
        Some(size) => Frame::Sized(size),
        None => match &block.cached_size {
            Some(size) => Frame::Sized(size),
            None => Frame::Available,
        },
    }
}

fn frame_of_table<'a, P: Paint>(table: &'a TablePageable<P>) -> (r: Frame<'a, P>)
    ensures
        r == table_frame(table),
{
    match &table.layout_size {
        Some(size) => Frame::Sides(&table.width, &size.height),
        None => Frame::Sides(&table.width, &table.cached_height),
    }
}

fn draw_gaps<'a, P: Paint>(columns: &'a MulticolRulePageable<P>, out: &mut Vec<DrawCommand<'a, P>>)
    ensures
        final(out)@ == old(out)@ + all_gaps(&columns.rule, &columns.groups, 0),
{
    let ghost start = out@;
    let mut k: usize = 0;
    while k < columns.groups.len()
        invariant
            k <= columns.groups@.len(),
            out@ + all_gaps(&columns.rule, &columns.groups, k as int) =~= start + all_gaps(&columns.rule, &columns.groups, 0),
        decreases columns.groups@.len() - k,
    {
        let group: &'a ColumnRuleGeometry<P> = &columns.groups[k];
        let ghost before = out@;
        if group.n >= 2 && group.col_heights.len() == group.n as usize {
            let count: usize = group.n as usize - 1;
            let mut i: usize = 0;
            while i < count
                invariant
                    i <= count,
                    count == group.n - 1,
                    gaps(&columns.rule, group).len() == count,
                    forall|j: int|
                        0 <= j < count ==> gaps(&columns.rule, group)[j] == (DrawCommand::ColumnGap {
                            rule: &columns.rule,
                            group,
                            index: j as usize,
                        }),
                    out@ =~= before + gaps(&columns.rule, group).take(i as int),
                decreases count - i,
            {
                out.push(DrawCommand::ColumnGap { rule: &columns.rule, group, index: i });
                i = i + 1;
            }
        }
        assert(out@ =~= before + gaps(&columns.rule, group));
        k = k + 1;
    }
}

fn draw_children<'a, P: Paint>(children: &'a Vec<PositionedChild<P>>, width: Option<&'a P::Length>, out: &mut Vec<DrawCommand<'a, P>>)
    ensures
        final(out)@ == old(out)@ + children_plan(
            children@,
            match width {
                Some(w) => ChildWidth::Fixed(w),
                None => ChildWidth::Inherited,
            },
            0,
        ),
    decreases children, 0int,
{
    let ghost start = out@;
    let ghost given = match width {
        Some(w) => ChildWidth::<'a, P>::Fixed(w),
        None => ChildWidth::<'a, P>::Inherited,
    };
    let mut k: usize = 0;
    while k < children.len()
        invariant
            k <= children@.len(),
            given == (match width {
                Some(w) => ChildWidth::<'a, P>::Fixed(w),
                None => ChildWidth::<'a, P>::Inherited,
            }),
            out@ + children_plan(children@, given, k as int) =~= start + children_plan(children@, given, 0),
        decreases children@.len() - k,
    {
        let ghost before = out@;
        let c: &'a PositionedChild<P> = &children[k];
        let child_width: ChildWidth<'a, P> = match width {
            Some(w) => ChildWidth::Fixed(w),
            None => ChildWidth::Inherited,
        };
        out.push(DrawCommand::Enter { x: &c.x, y: &c.y, width: child_width, height: &c.height });
        draw_into(&*c.child, out);
        out.push(DrawCommand::Leave);
        assert(out@ =~= before + (seq![
            DrawCommand::Enter { x: &c.x, y: &c.y, width: given, height: &c.height },
        ] + plan::<P>(&*c.child) + seq![DrawCommand::Leave]));
        k = k + 1;
    }
}

fn draw_into<'a, P: Paint>(node: &'a Pageable<P>, out: &mut Vec<DrawCommand<'a, P>>)
    ensures
        final(out)@ == old(out)@ + plan::<P>(node),
    decreases node, 1int,
{
    let ghost start = out@;
    match node {
        Pageable::Block(block) => {
            out.push(DrawCommand::PushOpacity(&block.opacity));
            if block.visible {
                out.push(DrawCommand::Shadows { style: &block.style, frame: frame_of_block(block) });
                out.push(DrawCommand::Background { style: &block.style, frame: frame_of_block(block) });
                out.push(DrawCommand::Border { style: &block.style, frame: frame_of_block(block) });
            }
            out.push(DrawCommand::PushClip { style: &block.style, frame: frame_of_block(block) });
            draw_children(&block.children, None, out);
            out.push(DrawCommand::PopClip);
            out.push(DrawCommand::PopOpacity);
        },
        Pageable::Table(table) => {
            out.push(DrawCommand::PushOpacity(&table.opacity));
            if table.visible {
                out.push(DrawCommand::Shadows { style: &table.style, frame: frame_of_table(table) });
                out.push(DrawCommand::Background { style: &table.style, frame: frame_of_table(table) });
                out.push(DrawCommand::Border { style: &table.style, frame: frame_of_table(table) });
            }
            out.push(DrawCommand::PushClip { style: &table.style, frame: frame_of_table(table) });
            draw_children(&table.header_cells, Some(&table.width), out);
            draw_children(&table.body_cells, Some(&table.width), out);
            out.push(DrawCommand::PopClip);
            out.push(DrawCommand::PopOpacity);
        },
        Pageable::ListItem(item) => {
            out.push(DrawCommand::PushOpacity(&item.opacity));
            if item.visible {
                if let ListItemMarker::Text { lines, width } = &item.marker {
                    if lines.len() > 0 {
                        out.push(DrawCommand::Marker { lines, width });
                    }
                }
            }
            draw_into(&*item.body, out);
            out.push(DrawCommand::PopOpacity);
        },
        Pageable::BookmarkMarker(marker) => {
            out.push(DrawCommand::Bookmark { level: marker.level, label: &marker.label });
        },
        Pageable::BookmarkMarkerWrapper(wrapper) => {
            out.push(DrawCommand::Bookmark { level: wrapper.marker.level, label: &wrapper.marker.label });
            draw_into(&*wrapper.child, out);
        },
        Pageable::TransformWrapper(wrapper) => {
            out.push(DrawCommand::PushTransform { matrix: &wrapper.matrix, origin: &wrapper.origin });
            draw_into(&*wrapper.inner, out);
            out.push(DrawCommand::PopTransform);
        },
        Pageable::MulticolRule(columns) => {
            draw_into(&*columns.child, out);
            draw_gaps(columns, out);
        },
        Pageable::CounterOpWrapper(wrapper) => {
            draw_into(&*wrapper.child, out);
        },
        Pageable::StringSetWrapper(wrapper) => {
            draw_into(&*wrapper.child, out);
        },
        Pageable::RunningElementWrapper(wrapper) => {
            draw_into(&*wrapper.child, out);
        },
        Pageable::Leaf(content, _) => {
            out.push(DrawCommand::Leaf(content));
        },
        Pageable::Spacer(_) => {},
        Pageable::StringSet(_) => {},
        Pageable::RunningElementMarker(_) => {},
        Pageable::CounterOpMarker(_) => {},
    }
    assert(out@ =~= start + plan::<P>(node));
}

impl<P: Paint> Pageable<P> {
    /// The commands that draw this part.
    pub fn draw(&self) -> (r: Vec<DrawCommand<'_, P>>)
        ensures
            r@ == plan::<P>(self),
    {
        let mut out: Vec<DrawCommand<'_, P>> = Vec::new();
        draw_into(self, &mut out);
        out
    }
}

/// What a command opens or closes.
pub ghost enum Group {
    Opacity,
    Clip,
    Place,
    Transform,
}

/// The groups that are open after commands, given those open before; nothing
/// where a command closes a group that is not the one opened last.
pub open spec fn open_after<'a, P: Paint>(commands: Seq<DrawCommand<'a, P>>, open: Seq<Group>) -> Option<Seq<Group>>
    decreases commands.len(),
{
    if commands.len() == 0 {
        Some(open)
    } else {
        let rest = commands.drop_first();
        match commands[0] {
            DrawCommand::PushOpacity(_) => open_after(rest, open.push(Group::Opacity)),
            DrawCommand::PushClip { .. } => open_after(rest, open.push(Group::Clip)),
            DrawCommand::Enter { .. } => open_after(rest, open.push(Group::Place)),
            DrawCommand::PushTransform { .. } => open_after(rest, open.push(Group::Transform)),
            DrawCommand::PopOpacity => if open.len() > 0 && open.last() is Opacity {
                open_after(rest, open.drop_last())
            } else {
                None
            },
            DrawCommand::PopClip => if open.len() > 0 && open.last() is Clip {
                open_after(rest, open.drop_last())
            } else {
                None
            },
            DrawCommand::Leave => if open.len() > 0 && open.last() is Place {
                open_after(rest, open.drop_last())
            } else {
                None
            },
            DrawCommand::PopTransform => if open.len() > 0 && open.last() is Transform {
                open_after(rest, open.drop_last())
            } else {
                None
            },
            _ => open_after(rest, open),
        }
    }
}

proof fn lemma_open_after_both<'a, P: Paint>(a: Seq<DrawCommand<'a, P>>, b: Seq<DrawCommand<'a, P>>, open: Seq<Group>)
    ensures
        open_after(a + b, open) == match open_after(a, open) {
            Some(then) => open_after(b, then),
            None => None,
        },
    decreases a.len(),
{
    if a.len() == 0 {
        assert(a + b =~= b);
    } else {
        assert((a + b).drop_first() =~= a.drop_first() + b);
        let rest = a.drop_first();
        lemma_open_after_both(rest, b, open);
        lemma_open_after_both(rest, b, open.push(Group::Opacity));
        lemma_open_after_both(rest, b, open.push(Group::Clip));
        lemma_open_after_both(rest, b, open.push(Group::Place));
        lemma_open_after_both(rest, b, open.push(Group::Transform));
        if open.len() > 0 {
            lemma_open_after_both(rest, b, open.drop_last());
        }
    }
}

/// A command on its own.
proof fn lemma_open_after_one<'a, P: Paint>(command: DrawCommand<'a, P>, open: Seq<Group>)
    ensures
        open_after(seq![command], open) == match command {
            DrawCommand::PushOpacity(_) => Some(open.push(Group::Opacity)),
            DrawCommand::PushClip { .. } => Some(open.push(Group::Clip)),
            DrawCommand::Enter { .. } => Some(open.push(Group::Place)),
            DrawCommand::PushTransform { .. } => Some(open.push(Group::Transform)),
            DrawCommand::PopOpacity => if open.len() > 0 && open.last() is Opacity {
                Some(open.drop_last())
            } else {
                None
            },
            DrawCommand::PopClip => if open.len() > 0 && open.last() is Clip {
                Some(open.drop_last())
            } else {
                None
            },
            DrawCommand::Leave => if open.len() > 0 && open.last() is Place {
                Some(open.drop_last())
            } else {
                None
            },
            DrawCommand::PopTransform => if open.len() > 0 && open.last() is Transform {
                Some(open.drop_last())
            } else {
                None
            },
            _ => Some(open),
        },
{
    assert(seq![command].drop_first() =~= Seq::<DrawCommand<'a, P>>::empty());
    reveal_with_fuel(open_after, 2);
}

proof fn lemma_gaps_open_nothing<'a, P: Paint>(commands: Seq<DrawCommand<'a, P>>, open: Seq<Group>)
    requires
        forall|i: int| 0 <= i < commands.len() ==> #[trigger] commands[i] is ColumnGap,
    ensures
        open_after(commands, open) == Some(open),
    decreases commands.len(),
{
    if commands.len() > 0 {
        assert(commands[0] is ColumnGap);
        assert forall|i: int| 0 <= i < commands.drop_first().len() implies #[trigger] commands.drop_first()[i] is ColumnGap by {
            assert(commands[i + 1] is ColumnGap);
        }
        lemma_gaps_open_nothing(commands.drop_first(), open);
    }
}

proof fn lemma_all_gaps<'a, P: Paint>(rule: &'a P::Rule, groups: &'a Vec<ColumnRuleGeometry<P>>, k: int)
    requires
        0 <= k,
    ensures
        forall|i: int| 0 <= i < all_gaps(rule, groups, k).len() ==> #[trigger] all_gaps(rule, groups, k)[i] is ColumnGap,
    decreases groups@.len() - k,
{
    if k < groups@.len() {
        lemma_all_gaps(rule, groups, k + 1);
    }
}

proof fn lemma_children_are_nested<'a, P: Paint>(children: Seq<PositionedChild<P>>, width: ChildWidth<'a, P>, k: int, open: Seq<Group>)
    requires
        0 <= k,
    ensures
        open_after(children_plan(children, width, k), open) == Some(open),
    decreases children, 0int, children.len() - k,
{
    if k < children.len() {
        let c = children[k];
        let enter = DrawCommand::Enter { x: &c.x, y: &c.y, width, height: &c.height };
        let inner = plan::<P>(&*c.child);
        let rest = children_plan(children, width, k + 1);
        let inside = open.push(Group::Place);
        lemma_open_after_both(seq![enter] + inner + seq![DrawCommand::Leave], rest, open);
        lemma_open_after_both(seq![enter] + inner, seq![DrawCommand::Leave], open);
        lemma_open_after_both(seq![enter], inner, open);
        lemma_open_after_one(enter, open);
        law_groups_are_nested::<P>(&*c.child, inside);
        lemma_open_after_one::<P>(DrawCommand::Leave, inside);
        assert(inside.drop_last() =~= open);
        lemma_children_are_nested(children, width, k + 1, open);
    }
}

proof fn lemma_box_opens_nothing<'a, P: Paint>(visible: bool, style: &'a P::Style, frame: Frame<'a, P>, open: Seq<Group>)
    ensures
        open_after(own_box(visible, style, frame), open) == Some(open),
{
    if visible {
        let shadows = DrawCommand::Shadows { style, frame };
        let background = DrawCommand::Background { style, frame };
        let border = DrawCommand::Border { style, frame };
        lemma_open_after_both(seq![shadows] + seq![background], seq![border], open);
        lemma_open_after_both(seq![shadows], seq![background], open);
        lemma_open_after_one(shadows, open);
        lemma_open_after_one(background, open);
        lemma_open_after_one(border, open);
        assert(own_box(visible, style, frame) =~= seq![shadows] + seq![background] + seq![border]);
    }
}

/// Commands inside a clip inside an opacity, behind a box of their own.
proof fn lemma_box_is_nested<'a, P: Paint>(
    opacity: &'a P::Opacity,
    visible: bool,
    style: &'a P::Style,
    frame: Frame<'a, P>,
    inner: Seq<DrawCommand<'a, P>>,
    open: Seq<Group>,
)
    requires
        open_after(inner, open.push(Group::Opacity).push(Group::Clip)) == Some(open.push(Group::Opacity).push(Group::Clip)),
    ensures
        open_after(
            seq![DrawCommand::PushOpacity(opacity)] + own_box(visible, style, frame) + seq![
                DrawCommand::PushClip { style, frame },
            ] + inner + seq![DrawCommand::PopClip, DrawCommand::PopOpacity],
            open,
        ) == Some(open),
{
    let faded = open.push(Group::Opacity);
    let clipped = faded.push(Group::Clip);
    let push = DrawCommand::PushOpacity(opacity);
    let clip = DrawCommand::PushClip { style, frame };
    let own = own_box(visible, style, frame);
    let pops = seq![DrawCommand::<'a, P>::PopClip, DrawCommand::PopOpacity];
    assert(pops =~= seq![DrawCommand::<'a, P>::PopClip] + seq![DrawCommand::<'a, P>::PopOpacity]);
    lemma_open_after_both(seq![push] + own + seq![clip] + inner, pops, open);
    lemma_open_after_both(seq![push] + own + seq![clip], inner, open);
    lemma_open_after_both(seq![push] + own, seq![clip], open);
    lemma_open_after_both(seq![push], own, open);
    lemma_open_after_one(push, open);
    lemma_box_opens_nothing(visible, style, frame, faded);
    lemma_open_after_one(clip, faded);
    lemma_open_after_both(seq![DrawCommand::<'a, P>::PopClip], seq![DrawCommand::<'a, P>::PopOpacity], clipped);
    lemma_open_after_one(DrawCommand::<'a, P>::PopClip, clipped);
    assert(clipped.drop_last() =~= faded);
    lemma_open_after_one(DrawCommand::<'a, P>::PopOpacity, faded);
    assert(faded.drop_last() =~= open);
}

/// Whatever a part holds, drawing it closes every group that it opens, each
/// before the one around it, and none that was open before.
pub proof fn law_groups_are_nested<P: Paint>(node: &Pageable<P>, open: Seq<Group>)
    ensures
        open_after(plan::<P>(node), open) == Some(open),
    decreases node, 1int, 0int,
{
    match node {
        Pageable::Block(block) => {
            let inside = open.push(Group::Opacity).push(Group::Clip);
            lemma_children_are_nested(block.children@, ChildWidth::Inherited, 0, inside);
            lemma_box_is_nested(
                &block.opacity,
                block.visible,
                &block.style,
                block_frame(block),
                children_plan(block.children@, ChildWidth::Inherited, 0),
                open,
            );
        },
        Pageable::Table(table) => {
            let inside = open.push(Group::Opacity).push(Group::Clip);
            let header = children_plan(table.header_cells@, ChildWidth::Fixed(&table.width), 0);
            let body = children_plan(table.body_cells@, ChildWidth::Fixed(&table.width), 0);
            lemma_children_are_nested(table.header_cells@, ChildWidth::Fixed(&table.width), 0, inside);
            lemma_children_are_nested(table.body_cells@, ChildWidth::Fixed(&table.width), 0, inside);
            lemma_open_after_both(header, body, inside);
            lemma_box_is_nested(&table.opacity, table.visible, &table.style, table_frame(table), header + body, open);
            let push = seq![DrawCommand::PushOpacity(&table.opacity)] + own_box(
                table.visible,
                &table.style,
                table_frame(table),
            ) + seq![DrawCommand::PushClip { style: &table.style, frame: table_frame(table) }];
            assert(push + (header + body) =~= push + header + body);
        },
        Pageable::ListItem(item) => {
            let push = DrawCommand::PushOpacity(&item.opacity);
            let inner = plan::<P>(&*item.body);
            let marker = marker_lines(item);
            let faded = open.push(Group::Opacity);
            lemma_open_after_both(seq![push] + marker + inner, seq![DrawCommand::PopOpacity], open);
            lemma_open_after_both(seq![push] + marker, inner, open);
            lemma_open_after_both(seq![push], marker, open);
            lemma_open_after_one(push, open);
            if marker.len() > 0 {
                assert(marker =~= seq![marker[0]]);
                lemma_open_after_one(marker[0], faded);
            }
            law_groups_are_nested::<P>(&*item.body, faded);
            lemma_open_after_one::<P>(DrawCommand::PopOpacity, faded);
            assert(faded.drop_last() =~= open);
        },
        Pageable::BookmarkMarker(marker) => {
            lemma_open_after_one::<P>(DrawCommand::Bookmark { level: marker.level, label: &marker.label }, open);
        },
        Pageable::BookmarkMarkerWrapper(wrapper) => {
            let mark: DrawCommand<'_, P> = DrawCommand::Bookmark { level: wrapper.marker.level, label: &wrapper.marker.label };
            lemma_open_after_both(seq![mark], plan::<P>(&*wrapper.child), open);
            lemma_open_after_one(mark, open);
            law_groups_are_nested::<P>(&*wrapper.child, open);
        },
        Pageable::TransformWrapper(wrapper) => {
            let push = DrawCommand::PushTransform { matrix: &wrapper.matrix, origin: &wrapper.origin };
            let inner = plan::<P>(&*wrapper.inner);
            let moved = open.push(Group::Transform);
            lemma_open_after_both(seq![push] + inner, seq![DrawCommand::PopTransform], open);
            lemma_open_after_both(seq![push], inner, open);
            lemma_open_after_one(push, open);
            law_groups_are_nested::<P>(&*wrapper.inner, moved);
            lemma_open_after_one::<P>(DrawCommand::PopTransform, moved);
            assert(moved.drop_last() =~= open);
        },
        Pageable::MulticolRule(columns) => {
            let rules = all_gaps(&columns.rule, &columns.groups, 0);
            lemma_open_after_both(plan::<P>(&*columns.child), rules, open);
            law_groups_are_nested::<P>(&*columns.child, open);
            lemma_all_gaps(&columns.rule, &columns.groups, 0);
            lemma_gaps_open_nothing(rules, open);
        },
        Pageable::CounterOpWrapper(wrapper) => {
            law_groups_are_nested::<P>(&*wrapper.child, open);
        },
        Pageable::StringSetWrapper(wrapper) => {
            law_groups_are_nested::<P>(&*wrapper.child, open);
        },
        Pageable::RunningElementWrapper(wrapper) => {
            law_groups_are_nested::<P>(&*wrapper.child, open);
        },
        Pageable::Leaf(content, _) => {
            lemma_open_after_one::<P>(DrawCommand::Leaf(content), open);
        },
        _ => {},
    }
}

} // verus!
