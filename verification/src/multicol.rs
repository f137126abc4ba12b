//! Content in several columns.

use crate::pageable::{BlockPageable, Pageable};
use crate::paint::{Paint, Size};
use std::sync::Arc;
use vstd::prelude::*;

verus! {

/// How many columns a container asks for, and how wide.
#[derive(Clone, Copy)]
pub struct MulticolProps<L> {
    pub column_count: Option<u32>,
    pub column_width: Option<L>,
    pub column_gap: L,
}

/// A strip of a container.
pub enum Segment<P: Paint> {
    /// Content that flows through the columns.
    ColumnGroup(Vec<Box<Pageable<P>>>),
    /// Content across all columns.
    SpanAll(Box<Pageable<P>>),
}

/// The rule between two columns.
#[derive(Debug, Clone, Copy, PartialEq)]
pub struct ColumnRule<L, B> {
    pub width: L,
    pub style: B,
    pub color: [u8; 4],
}

/// Whether the columns become equally long, or the first fill up first.
#[derive(Debug, Clone, Copy, PartialEq, Eq, Structural)]
pub enum ColumnFill {
    Balance,
    Auto,
}

impl Default for ColumnFill {
    fn default() -> (r: Self)
        ensures
            r == ColumnFill::Balance,
    {
        ColumnFill::Balance
    }
}

/// A container with columns.
pub struct MulticolPageable<P: Paint, B> {
    pub props: MulticolProps<P::Length>,
    pub segments: Vec<Segment<P>>,
    pub column_rule: Option<ColumnRule<P::Length, B>>,
    pub fill: ColumnFill,
    pub style: P::Style,
    pub opacity: P::Opacity,
    pub visible: bool,
    pub id: Option<Arc<String>>,
    /// The number of columns, one before it is known.
    pub resolved_count: u32,
    /// The width of a column, none before it is known.
    pub resolved_col_w: P::Length,
    pub layout_size: Option<Size<P::Length>>,
    pub fallback: Box<BlockPageable<P>>,
}

/// The parts of a list of parts.
pub open spec fn parts_of<P: Paint>(parts: Seq<Box<Pageable<P>>>) -> Seq<Pageable<P>> {
    Seq::new(parts.len(), |i: int| *parts[i])
}

/// The content of the column groups among the segments from the `k`-th on.
pub open spec fn flow<P: Paint>(segments: Seq<Segment<P>>, k: int) -> Seq<Pageable<P>>
    decreases segments.len() - k,
{
    if k >= segments.len() {
        Seq::empty()
    } else {
        match segments[k] {
            Segment::ColumnGroup(parts) => parts_of(parts@) + flow(segments, k + 1),
            Segment::SpanAll(_) => flow(segments, k + 1),
        }
    }
}

/// The parts that references point to.
pub open spec fn pointed<P: Paint>(refs: Seq<&Pageable<P>>) -> Seq<Pageable<P>> {
    Seq::new(refs.len(), |i: int| *refs[i])
}

impl<P: Paint, B> MulticolPageable<P, B> {
    /// A container without rules, its columns balanced, of no known size.
    pub fn new(
        props: MulticolProps<P::Length>,
        segments: Vec<Segment<P>>,
        style: P::Style,
        opacity: P::Opacity,
        visible: bool,
        id: Option<Arc<String>>,
        fallback: BlockPageable<P>,
    ) -> (r: Self)
        ensures
            r.props == props && r.segments == segments && r.style == style && r.opacity == opacity,
            r.visible == visible && r.id == id && *r.fallback == fallback,
            r.column_rule is None,
            r.fill == ColumnFill::Balance,
            r.resolved_count == 1,
            call_ensures(P::Length::default, (), r.resolved_col_w),
            r.layout_size is None,
    {
        MulticolPageable {
            props,
            segments,
            column_rule: None,
            fill: ColumnFill::default(),
            style,
            opacity,
            visible,
            id,
            resolved_count: 1,
            resolved_col_w: P::Length::default(),
            layout_size: None,
            fallback: Box::new(fallback),
        }
    }

    pub fn with_layout_size(self, size: Size<P::Length>) -> (r: Self)
        ensures
            r == (MulticolPageable { layout_size: Some(size), ..self }),
    {
        MulticolPageable { layout_size: Some(size), ..self }
    }

    pub fn with_fill(self, fill: ColumnFill) -> (r: Self)
        ensures
            r == (MulticolPageable { fill, ..self }),
    {
        MulticolPageable { fill, ..self }
    }

    /// The container on the next page: the same, with nothing but the content
    /// that found no place.
    pub fn remainder(self, overflow: Vec<Box<Pageable<P>>>) -> (r: Self)
        ensures
            r.segments@ == seq![Segment::ColumnGroup(overflow)],
            r == (MulticolPageable { segments: r.segments, ..self }),
    {
        let mut segments: Vec<Segment<P>> = Vec::new();
        segments.push(Segment::ColumnGroup(overflow));
        MulticolPageable { segments, ..self }
    }

    /// The content that flows through the columns, in order.
    pub fn column_flow_children(&self) -> (r: Vec<&Pageable<P>>)
        ensures
            pointed(r@) == flow(self.segments@, 0),
    {
        let mut out: Vec<&Pageable<P>> = Vec::new();
        let mut k: usize = 0;
        while k < self.segments.len()
            invariant
                k <= self.segments@.len(),
                pointed(out@) + flow(self.segments@, k as int) =~= flow(self.segments@, 0),
            decreases self.segments@.len() - k,
        {
            if let Segment::ColumnGroup(parts) = &self.segments[k] {
                let ghost before = out@;
                let mut i: usize = 0;
                while i < parts.len()
                    invariant
                        i <= parts@.len(),
                        pointed(out@) =~= pointed(before) + parts_of(parts@).take(i as int),
                    decreases parts@.len() - i,
                {
                    let part: &Pageable<P> = &*parts[i];
                    let ghost sofar = out@;
                    out.push(part);
                    assert(pointed(out@) =~= pointed(sofar).push(*part));
                    assert(parts_of(parts@).take(i + 1) =~= parts_of(parts@).take(i as int).push(*part));
                    i = i + 1;
                }
                assert(parts_of(parts@).take(i as int) =~= parts_of(parts@));
            }
            k = k + 1;
        }
        out
    }
}

/// The number of columns in a container that asks for a number of them and has
/// room for so many of the width that it asks for. What it does not ask for
/// sets no limit, and there is always one column.
pub fn used_column_count(count: Option<u32>, room: Option<u32>) -> (r: u32)
    ensures
        r == match (count, room) {
            (Some(n), Some(cap)) => if n == 0 || cap <= 1 {
                1
            } else if n < cap {
                n
            } else {
                cap
            },
            (Some(n), None) | (None, Some(n)) => if n == 0 {
                1
            } else {
                n
            },
            (None, None) => 1,
        },
{
    let n: u32 = match (count, room) {
        (Some(n), Some(cap)) => if n < cap {
            n
        } else {
            cap
        },
        (Some(n), None) => n,
        (None, Some(cap)) => cap,
        (None, None) => 1,
    };
    if n == 0 {
        1
    } else {
        n
    }
}

/// A child in a column, at a distance from its top.
pub struct Placed<C, L> {
    pub child: C,
    pub column: u32,
    pub y: L,
}

/// What to do with a child that was measured.
#[derive(Debug, Clone, Copy, PartialEq, Eq, Structural)]
pub enum Judgement {
    /// It fits: place it and go on in this column.
    Keep,
    /// It does not fit: see whether it can be split.
    Split,
    /// It does not fit and there is no room for a part of it.
    Refuse,
}

/// Judges a child by whether it fits in what is left of a column, and whether
/// anything is left at all.
pub fn judge(fits: bool, room: bool) -> (r: Judgement)
    ensures
        r == if fits {
            Judgement::Keep
        } else if room {
            Judgement::Split
        } else {
            Judgement::Refuse
        },
{
    if fits {
        Judgement::Keep
    } else if room {
        Judgement::Split
    } else {
        Judgement::Refuse
    }
}

/// Children on their way into columns.
pub struct Distribution<C, L> {
    /// The children that wait, the next one last.
    waiting: Vec<C>,
    placed: Vec<Placed<C, L>>,
    column: u32,
    columns: u32,
}

/// Children in columns, those that wait for one, and the column being filled.
pub ghost struct DistributionModel<C, L> {
    pub placed: Seq<Placed<C, L>>,
    pub waiting: Seq<C>,
    pub column: u32,
    pub columns: u32,
}

impl<C, L> DistributionModel<C, L> {
    /// All content, in order.
    pub open spec fn content(self) -> Seq<C> {
        Seq::new(self.placed.len(), |i: int| self.placed[i].child) + self.waiting
    }

    /// Whether columns were filled one after the other.
    pub open spec fn in_order(self) -> bool {
        &&& self.column <= self.columns
        &&& forall|i: int| 0 <= i < self.placed.len() ==> (#[trigger] self.placed[i]).column <= self.column
        &&& forall|i: int| 0 <= i < self.placed.len() ==> (#[trigger] self.placed[i]).column < self.columns
        &&& forall|i: int, j: int|
            0 <= i <= j < self.placed.len() ==> (#[trigger] self.placed[i]).column <= (#[trigger] self.placed[j]).column
    }

    /// The next child taken.
    pub open spec fn taken(self) -> DistributionModel<C, L> {
        DistributionModel { waiting: self.waiting.drop_first(), ..self }
    }

    pub open spec fn kept(self, child: C, y: L) -> DistributionModel<C, L> {
        DistributionModel { placed: self.placed.push(Placed { child, column: self.column, y }), ..self }
    }

    pub open spec fn split(self, first: C, rest: C, y: L) -> DistributionModel<C, L> {
        DistributionModel {
            placed: self.placed.push(Placed { child: first, column: self.column, y }),
            waiting: seq![rest] + self.waiting,
            column: (self.column + 1) as u32,
            ..self
        }
    }

    /// A child that fits nowhere is placed at the top of a column rather than
    /// lost; elsewhere it waits for the next column.
    pub open spec fn refused(self, child: C, at_top: bool, y: L) -> DistributionModel<C, L> {
        if at_top {
            DistributionModel { column: (self.column + 1) as u32, ..self.kept(child, y) }
        } else {
            DistributionModel { waiting: seq![child] + self.waiting, column: (self.column + 1) as u32, ..self }
        }
    }
}

impl<C, L> View for Distribution<C, L> {
    type V = DistributionModel<C, L>;

    closed spec fn view(&self) -> DistributionModel<C, L> {
        DistributionModel {
            placed: self.placed@,
            waiting: self.waiting@.reverse(),
            column: self.column,
            columns: self.columns,
        }
    }
}

proof fn lemma_kept_in_order<C, L>(d: DistributionModel<C, L>, child: C, y: L)
    requires
        d.in_order(),
        d.column < d.columns,
    ensures
        d.kept(child, y).in_order(),
{
    let next = d.kept(child, y);
    assert forall|i: int, j: int| 0 <= i <= j < next.placed.len() implies (#[trigger] next.placed[i]).column <= (
    #[trigger] next.placed[j]).column by {
        if j < d.placed.len() {
            assert(d.placed[i].column <= d.placed[j].column);
        } else if i < d.placed.len() {
            assert(d.placed[i].column <= d.column);
        }
    }
}

/// The items of a list, last first.
fn reversed<C>(items: Vec<C>) -> (r: Vec<C>)
    ensures
        r@ == items@.reverse(),
{
    let ghost given = items@;
    let mut rest: Vec<C> = items;
    let mut r: Vec<C> = Vec::new();
    loop
        invariant
            given == items@,
            rest@.len() + r@.len() == given.len(),
            rest@ =~= given.take(rest@.len() as int),
            r@ =~= given.reverse().take(r@.len() as int),
        decreases rest@.len(),
    {
        match rest.pop() {
            Some(item) => {
                r.push(item);
            },
            None => {
                assert(given.reverse().take(r@.len() as int) =~= given.reverse());
                return r;
            },
        }
    }
}

impl<C, L> Distribution<C, L> {
    /// Children that all wait for the first of some columns.
    pub fn new(children: Vec<C>, columns: u32) -> (r: Self)
        ensures
            r@ == (DistributionModel {
                placed: Seq::<Placed<C, L>>::empty(),
                waiting: children@,
                column: 0,
                columns,
            }),
            r@.in_order(),
    {
        let ghost given = children@;
        let r = Distribution { waiting: reversed(children), placed: Vec::new(), column: 0, columns };
        assert(r@.waiting =~= given);
        r
    }

    /// The next child for the column being filled, if there is a column and a
    /// child.
    pub fn take(&mut self) -> (r: Option<C>)
        ensures
            match r {
                Some(child) => {
                    &&& old(self)@.column < old(self)@.columns
                    &&& old(self)@.waiting.len() > 0
                    &&& child == old(self)@.waiting[0]
                    &&& final(self)@ == old(self)@.taken()
                },
                None => {
                    &&& old(self)@.column >= old(self)@.columns || old(self)@.waiting.len() == 0
                    &&& final(self)@ == old(self)@
                },
            },
            old(self)@.in_order() ==> final(self)@.in_order(),
    {
        if self.column >= self.columns {
            return None;
        }
        let r = self.waiting.pop();
        proof {
            if r is Some {
                assert(self@.waiting =~= old(self)@.waiting.drop_first());
                assert(self@ == old(self)@.taken());
            } else {
                assert(self@.waiting =~= old(self)@.waiting);
                assert(self@ == old(self)@);
            }
        }
        r
    }

    /// Places a child that fits.
    pub fn keep(&mut self, child: C, y: L)
        requires
            old(self)@.column < old(self)@.columns,
        ensures
            final(self)@ == old(self)@.kept(child, y),
            old(self)@.in_order() ==> final(self)@.in_order(),
    {
        self.placed.push(Placed { child, column: self.column, y });
        proof {
            assert(self@ == old(self)@.kept(child, y));
            if old(self)@.in_order() {
                lemma_kept_in_order(old(self)@, child, y);
            }
        }
    }

    /// Places the first part of a child and lets the rest wait for the next
    /// column.
    pub fn split(&mut self, first: C, rest: C, y: L)
        requires
            old(self)@.column < old(self)@.columns,
        ensures
            final(self)@ == old(self)@.split(first, rest, y),
            old(self)@.in_order() ==> final(self)@.in_order(),
    {
        self.placed.push(Placed { child: first, column: self.column, y });
        self.waiting.push(rest);
        self.column = self.column + 1;
        proof {
            assert(self@.waiting =~= seq![rest] + old(self)@.waiting);
            assert(self@ == old(self)@.split(first, rest, y));
            if old(self)@.in_order() {
                lemma_kept_in_order(old(self)@, first, y);
                assert(self@.placed == old(self)@.kept(first, y).placed);
            }
        }
    }

    /// Ends a column with a child that neither fits nor can be split.
    pub fn refuse(&mut self, child: C, at_top: bool, y: L)
        requires
            old(self)@.column < old(self)@.columns,
        ensures
            final(self)@ == old(self)@.refused(child, at_top, y),
            old(self)@.in_order() ==> final(self)@.in_order(),
    {
        if at_top {
            self.placed.push(Placed { child, column: self.column, y });
        } else {
            self.waiting.push(child);
            assert(self@.waiting =~= seq![child] + old(self)@.waiting);
        }
        self.column = self.column + 1;
        proof {
            assert(self@ == old(self)@.refused(child, at_top, y));
            if old(self)@.in_order() {
                lemma_kept_in_order(old(self)@, child, y);
                assert(self@.placed == if at_top { old(self)@.kept(child, y).placed } else { old(self)@.placed });
            }
        }
    }

    /// The children placed, and those that found no place, in order.
    pub fn into_parts(self) -> (r: (Vec<Placed<C, L>>, Vec<C>))
        ensures
            r.0@ == self@.placed,
            r.1@ == self@.waiting,
    {
        (self.placed, reversed(self.waiting))
    }
}

/// Placing, refusing or splitting the next child loses nothing and changes no
/// order: a child that is split is followed by its rest, and everything else
/// stays where it was.
pub proof fn law_distribution_keeps_content<C, L>(d: DistributionModel<C, L>, y: L, at_top: bool, first: C, rest: C)
    requires
        d.waiting.len() > 0,
    ensures
        d.taken().kept(d.waiting[0], y).content() == d.content(),
        d.taken().refused(d.waiting[0], at_top, y).content() == d.content(),
        d.taken().split(first, rest, y).content() == Seq::new(d.placed.len(), |i: int| d.placed[i].child) + seq![first, rest]
            + d.waiting.drop_first(),
{
    let child = d.waiting[0];
    assert(d.taken().kept(child, y).content() =~= d.content());
    assert(d.taken().refused(child, at_top, y).content() =~= d.content());
    assert(d.taken().split(first, rest, y).content() =~= Seq::new(d.placed.len(), |i: int| d.placed[i].child) + seq![first, rest]
        + d.waiting.drop_first());
}

/// What flows through the columns is the content of every column group in order, and
/// nothing of what spans them.
pub proof fn law_flow_is_all_column_groups<P: Paint>(a: Seq<Segment<P>>, b: Seq<Segment<P>>, one: Segment<P>)
    ensures
        flow(a + b, 0) == flow(a, 0) + flow(b, 0),
        flow(seq![one], 0) == match one {
            Segment::ColumnGroup(parts) => parts_of(parts@),
            Segment::SpanAll(_) => Seq::empty(),
        },
{
    lemma_flow_of_both(a, b, 0);
    reveal_with_fuel(flow, 2);
    assert(flow(seq![one], 0) =~= match one {
        Segment::ColumnGroup(parts) => parts_of(parts@),
        Segment::SpanAll(_) => Seq::empty(),
    });
}

proof fn lemma_flow_of_both<P: Paint>(a: Seq<Segment<P>>, b: Seq<Segment<P>>, k: int)
    requires
        0 <= k <= a.len(),
    ensures
        flow(a + b, k) == flow(a, k) + flow(b, 0),
    decreases a.len() - k,
{
    if k == a.len() {
        lemma_flow_shift(a, b, 0);
        assert(flow(a, k) + flow(b, 0) =~= flow(b, 0));
    } else {
        lemma_flow_of_both(a, b, k + 1);
        assert((a + b)[k] == a[k]);
        assert(flow(a + b, k) =~= flow(a, k) + flow(b, 0));
    }
}

proof fn lemma_flow_shift<P: Paint>(a: Seq<Segment<P>>, b: Seq<Segment<P>>, k: int)
    requires
        0 <= k <= b.len(),
    ensures
        flow(a + b, a.len() + k) == flow(b, k),
    decreases b.len() - k,
{
    if k < b.len() {
        lemma_flow_shift(a, b, k + 1);
        assert((a + b)[a.len() + k] == b[k]);
    }
}

/// A child that fits goes to the column being filled, behind all that was placed before,
/// and the column stays; one that is split or refused ends the column.
pub proof fn law_distribution_fills_columns<C, L>(d: DistributionModel<C, L>, child: C, first: C, rest: C, y: L)
    requires
        d.column < u32::MAX,
    ensures
        ({
            let n = d.placed.len() as int;
            let kept = d.kept(child, y);
            let split = d.split(first, rest, y);
            let top = d.refused(child, true, y);
            let below = d.refused(child, false, y);
            let here = Placed { child, column: d.column, y };
            &&& kept.placed.len() == n + 1 && kept.placed[n] == here && kept.column == d.column && kept.waiting == d.waiting
            &&& split.placed.len() == n + 1 && split.placed[n] == (Placed { child: first, column: d.column, y })
            &&& split.column == d.column + 1 && split.waiting.len() == d.waiting.len() + 1 && split.waiting[0] == rest
            &&& top.placed.len() == n + 1 && top.placed[n] == here && top.column == d.column + 1 && top.waiting == d.waiting
            &&& below.placed == d.placed && below.column == d.column + 1
            &&& below.waiting.len() == d.waiting.len() + 1 && below.waiting[0] == child
            &&& forall|i: int|
                0 <= i < n ==> kept.placed[i] == #[trigger] d.placed[i] && split.placed[i] == d.placed[i]
                    && top.placed[i] == d.placed[i]
            &&& forall|i: int|
                0 <= i < d.waiting.len() ==> split.waiting[i + 1] == #[trigger] d.waiting[i] && below.waiting[i + 1]
                    == d.waiting[i]
            &&& kept.columns == d.columns && split.columns == d.columns && top.columns == d.columns && below.columns
                == d.columns
        }),
{
}

} // verus!
