//! The parts of a page, how they are drawn, and how they flow into columns.

use fulgur::draw::{DrawCommand, Frame};
use fulgur::drawables::{ColumnRuleGeometry, ListItemMarker};
use fulgur::gcpm::CounterOp;
use fulgur::multicol::{
    ColumnFill, Distribution, Judgement, MulticolPageable, MulticolProps, Segment, judge, used_column_count,
};
use fulgur::multicol_layout::{LayoutNode, collect_multicol_node_ids, multicol_layout_order};
use fulgur::pageable::{
    BlockPageable, BookmarkCollector, BookmarkMarkerPageable, BookmarkMarkerWrapperPageable,
    CounterOpWrapperPageable, ListItemPageable, MulticolRulePageable, Pageable, PositionedChild, SpacerPageable,
    StringSetPageable, TablePageable, TransformWrapperPageable,
};
use fulgur::paint::{Paint, Size};

#[derive(Debug)]
struct Plain;

impl Paint for Plain {
    type Length = f32;
    type Opacity = f32;
    type Style = ();
    type Line = ();
    type Tree = ();
    type Encoding = ();
    type Matrix = ();
    type Point = ();
    type Rule = ();
    type Leaf = &'static str;
    type Role = ();
}

#[test]
fn test_string_set_pageable_fields() {
    let p = StringSetPageable::new("title".to_string(), "Chapter 1".to_string());
    assert_eq!(p.name, "title");
    assert_eq!(p.value, "Chapter 1");
}

#[test]
fn bookmark_marker_has_no_geometry_payload() {
    let m = BookmarkMarkerPageable::new(1, "Chapter 1".to_string());
    assert_eq!(m.level, 1);
    assert_eq!(m.label, "Chapter 1");
}

#[test]
fn bookmark_collector_records_entry_on_draw() {
    let mut collector = BookmarkCollector::new();
    collector.set_current_page(2);

    let marker = BookmarkMarkerPageable::new(2, "Section".to_string());
    marker.record_if_collecting(42.0, Some(&mut collector));
    marker.record_if_collecting(43.0, None);

    let entries = collector.into_entries();
    assert_eq!(entries.len(), 1);
    assert_eq!(entries[0].page_idx, 2);
    assert_eq!(entries[0].y_pt, 42.0);
    assert_eq!(entries[0].level, 2);
    assert_eq!(entries[0].label, "Section");
}

fn leaf(name: &'static str) -> Box<Pageable<Plain>> {
    Box::new(Pageable::Leaf(name, None))
}

/// The commands of a part, each in short.
fn drawn(part: &Pageable<Plain>) -> Vec<String> {
    let mut out: Vec<String> = Vec::new();
    for command in part.draw() {
        out.push(match command {
            DrawCommand::PushOpacity(opacity) => format!("opacity {opacity}"),
            DrawCommand::PopOpacity => "opacity end".to_string(),
            DrawCommand::Shadows { .. } => "shadows".to_string(),
            DrawCommand::Background { frame: Frame::Sized(size), .. } => {
                format!("background {} {}", size.width, size.height)
            }
            DrawCommand::Background { frame: Frame::Sides(width, height), .. } => {
                format!("background {width} {height}")
            }
            DrawCommand::Background { frame: Frame::Available, .. } => "background".to_string(),
            DrawCommand::Border { .. } => "border".to_string(),
            DrawCommand::PushClip { .. } => "clip".to_string(),
            DrawCommand::PopClip => "clip end".to_string(),
            DrawCommand::Enter { x, y, .. } => format!("at {x} {y}"),
            DrawCommand::Leave => "back".to_string(),
            DrawCommand::PushTransform { .. } => "transform".to_string(),
            DrawCommand::PopTransform => "transform end".to_string(),
            DrawCommand::Bookmark { level, label } => format!("bookmark {level} {label}"),
            DrawCommand::Marker { width, .. } => format!("marker {width}"),
            DrawCommand::ColumnGap { index, .. } => format!("gap {index}"),
            DrawCommand::Leaf(name) => format!("leaf {name}"),
        });
    }
    out
}

#[test]
fn a_block_is_drawn_around_its_children() {
    let child = PositionedChild::in_flow(leaf("text"), 3.0, 4.0);
    let mut block = BlockPageable::with_positioned_children(vec![child]);
    block.layout_size = Some(Size { width: 10.0, height: 20.0 });
    assert_eq!(
        drawn(&Pageable::Block(block)),
        [
            "opacity 0",
            "shadows",
            "background 10 20",
            "border",
            "clip",
            "at 3 4",
            "leaf text",
            "back",
            "clip end",
            "opacity end",
        ]
    );
}

#[test]
fn a_hidden_block_draws_only_its_children() {
    let child = PositionedChild::in_flow(leaf("text"), 0.0, 0.0);
    let block = BlockPageable::with_positioned_children(vec![child]).with_visible(false).with_opacity(0.5);
    assert_eq!(
        drawn(&Pageable::Block(block)),
        ["opacity 0.5", "clip", "at 0 0", "leaf text", "back", "clip end", "opacity end"]
    );
}

#[test]
fn a_table_draws_its_header_before_its_body() {
    let table = TablePageable::<Plain> {
        header_cells: vec![PositionedChild::in_flow(leaf("head"), 0.0, 0.0)],
        body_cells: vec![PositionedChild::in_flow(leaf("body"), 0.0, 8.0)],
        header_height: 8.0,
        style: (),
        layout_size: None,
        width: 100.0,
        cached_height: 16.0,
        opacity: 1.0,
        visible: true,
        id: None,
        node_id: Some(3),
    };
    let part = Pageable::Table(table);
    assert_eq!(part.node_id(), Some(3));
    let commands = drawn(&part);
    let head = commands.iter().position(|c| c == "leaf head").unwrap();
    let body = commands.iter().position(|c| c == "leaf body").unwrap();
    assert!(head < body);
    assert!(commands.contains(&"background 100 16".to_string()));
}

#[test]
fn a_list_item_draws_its_marker_once() {
    let item = |marker: ListItemMarker<Plain>, visible: bool| {
        Pageable::ListItem(ListItemPageable {
            marker,
            marker_line_height: 12.0,
            body: leaf("body"),
            style: (),
            width: 80.0,
            height: 12.0,
            opacity: 1.0,
            visible,
            node_id: None,
        })
    };
    let shown = drawn(&item(ListItemMarker::Text { lines: vec![()], width: 9.0 }, true));
    assert_eq!(shown.iter().filter(|c| *c == "marker 9").count(), 1);
    assert!(shown.contains(&"leaf body".to_string()));
    let hidden = drawn(&item(ListItemMarker::Text { lines: vec![()], width: 9.0 }, false));
    assert!(!hidden.contains(&"marker 9".to_string()));
    assert!(hidden.contains(&"leaf body".to_string()));
    let later = drawn(&item(ListItemMarker::Absent, true));
    assert!(!later.iter().any(|c| c.starts_with("marker")));
}

#[test]
fn wrappers_draw_what_they_wrap() {
    let marker = BookmarkMarkerPageable::new(1, "One".to_string());
    let inner = Pageable::BookmarkMarkerWrapper(BookmarkMarkerWrapperPageable::new(marker, leaf("text")));
    let ops = vec![CounterOp::Reset { name: "c".to_string(), value: 0 }];
    let counted = Pageable::CounterOpWrapper(CounterOpWrapperPageable::new(ops, Box::new(inner)));
    let turned = Pageable::TransformWrapper(TransformWrapperPageable::new(Box::new(counted), (), ()));
    assert_eq!(drawn(&turned), ["transform", "bookmark 1 One", "leaf text", "transform end"]);
    assert!(drawn(&Pageable::StringSet(StringSetPageable::new("a".to_string(), "b".to_string()))).is_empty());
}

#[test]
fn rules_stand_between_columns() {
    let group = |n: u32, heights: Vec<f32>| ColumnRuleGeometry::<Plain> {
        x_offset: 0.0,
        y_offset: 0.0,
        col_w: 10.0,
        gap: 2.0,
        n,
        col_heights: heights,
    };
    let groups = vec![group(3, vec![1.0, 1.0, 1.0]), group(1, vec![1.0]), group(2, vec![1.0])];
    let part = Pageable::MulticolRule(MulticolRulePageable::new(leaf("columns"), (), groups));
    assert_eq!(drawn(&part), ["leaf columns", "gap 0", "gap 1"]);
}

#[test]
fn groups_are_closed_in_the_order_they_were_opened() {
    let inner = PositionedChild::in_flow(
        Box::new(Pageable::TransformWrapper(TransformWrapperPageable::new(leaf("x"), (), ()))),
        1.0,
        1.0,
    );
    let outer = PositionedChild::in_flow(
        Box::new(Pageable::Block(BlockPageable::with_positioned_children(vec![inner]))),
        2.0,
        2.0,
    );
    let part = Pageable::<Plain>::Block(BlockPageable::with_positioned_children(vec![outer]));
    let mut open: Vec<&str> = Vec::new();
    for command in part.draw() {
        match command {
            DrawCommand::PushOpacity(_) => open.push("opacity"),
            DrawCommand::PushClip { .. } => open.push("clip"),
            DrawCommand::Enter { .. } => open.push("place"),
            DrawCommand::PushTransform { .. } => open.push("transform"),
            DrawCommand::PopOpacity => assert_eq!(open.pop(), Some("opacity")),
            DrawCommand::PopClip => assert_eq!(open.pop(), Some("clip")),
            DrawCommand::Leave => assert_eq!(open.pop(), Some("place")),
            DrawCommand::PopTransform => assert_eq!(open.pop(), Some("transform")),
            _ => {}
        }
    }
    assert!(open.is_empty());
}

#[test]
fn a_part_knows_its_node() {
    let spacer = SpacerPageable::<Plain>::new(5.0).with_node_id(Some(7));
    let marker = BookmarkMarkerPageable::new(1, String::new());
    let wrapped =
        Pageable::BookmarkMarkerWrapper(BookmarkMarkerWrapperPageable::new(marker, Box::new(Pageable::Spacer(spacer))));
    assert_eq!(wrapped.node_id(), Some(7));
    let alone = Pageable::<Plain>::BookmarkMarker(BookmarkMarkerPageable::new(1, String::new()));
    assert_eq!(alone.node_id(), None);
    assert!(drawn(&alone).contains(&"bookmark 1 ".to_string()));
}

#[test]
fn only_column_groups_flow() {
    let segments = vec![
        Segment::ColumnGroup(vec![leaf("a"), leaf("b")]),
        Segment::SpanAll(leaf("heading")),
        Segment::ColumnGroup(vec![leaf("c")]),
    ];
    let props = MulticolProps { column_count: Some(2), column_width: None, column_gap: 4.0 };
    let columns: MulticolPageable<Plain, ()> =
        MulticolPageable::new(props, segments, (), 1.0, true, None, BlockPageable::new(Vec::new()))
            .with_fill(ColumnFill::Auto)
            .with_layout_size(Size { width: 50.0, height: 60.0 });
    let flow: Vec<Vec<String>> = columns.column_flow_children().into_iter().map(drawn).collect();
    assert_eq!(flow, [["leaf a"], ["leaf b"], ["leaf c"]]);
    assert_eq!(columns.fill, ColumnFill::Auto);
    assert_eq!(columns.resolved_count, 1);
}

#[test]
fn children_are_judged_by_what_is_left() {
    assert_eq!(judge(true, true), Judgement::Keep);
    assert_eq!(judge(true, false), Judgement::Keep);
    assert_eq!(judge(false, true), Judgement::Split);
    assert_eq!(judge(false, false), Judgement::Refuse);
}

#[test]
fn a_distribution_keeps_all_content_in_order() {
    let mut d: Distribution<&str, u32> = Distribution::new(vec!["a", "bc", "d", "e"], 3);
    let a = d.take().unwrap();
    d.keep(a, 0);
    let bc = d.take().unwrap();
    assert_eq!(bc, "bc");
    d.split("b", "c", 1);
    let c = d.take().unwrap();
    assert_eq!(c, "c");
    d.keep(c, 0);
    let first = d.take().unwrap();
    d.refuse(first, false, 5);
    let again = d.take().unwrap();
    assert_eq!(again, "d");
    d.refuse(again, true, 0);
    assert!(d.take().is_none());
    let (placed, waiting) = d.into_parts();
    let places: Vec<(&str, u32, u32)> = placed.into_iter().map(|p| (p.child, p.column, p.y)).collect();
    assert_eq!(places, [("a", 0, 0), ("b", 0, 1), ("c", 1, 0), ("d", 2, 0)]);
    assert_eq!(waiting, ["e"]);
}

#[test]
fn the_rest_of_a_container_keeps_its_look() {
    let segments = vec![Segment::ColumnGroup(vec![leaf("a"), leaf("b")])];
    let props = MulticolProps { column_count: Some(3), column_width: None, column_gap: 4.0 };
    let columns: MulticolPageable<Plain, ()> =
        MulticolPageable::new(props, segments, (), 0.25, false, None, BlockPageable::new(Vec::new()));
    let rest = columns.remainder(vec![leaf("b")]);
    let flow: Vec<Vec<String>> = rest.column_flow_children().into_iter().map(drawn).collect();
    assert_eq!(flow, [["leaf b"]]);
    assert_eq!(rest.props.column_count, Some(3));
    assert_eq!(rest.opacity, 0.25);
    assert!(!rest.visible);
}

#[test]
fn there_is_always_a_column() {
    assert_eq!(used_column_count(Some(3), None), 3);
    assert_eq!(used_column_count(Some(0), None), 1);
    assert_eq!(used_column_count(None, Some(4)), 4);
    assert_eq!(used_column_count(None, Some(0)), 1);
    assert_eq!(used_column_count(Some(2), Some(4)), 2);
    assert_eq!(used_column_count(Some(5), Some(2)), 2);
    assert_eq!(used_column_count(Some(3), Some(0)), 1);
    assert_eq!(used_column_count(None, None), 1);
}

#[test]
fn nested_columns_are_laid_out_first() {
    let node = |id: usize, multicol: bool, children: Vec<LayoutNode>| LayoutNode { id, multicol, children };
    let tree = node(
        1,
        false,
        vec![
            node(2, true, vec![node(3, false, vec![node(4, true, vec![])]), node(5, true, vec![])]),
            node(6, true, vec![]),
        ],
    );
    assert_eq!(collect_multicol_node_ids(&tree), [2, 4, 5, 6]);
    assert_eq!(multicol_layout_order(&tree), [6, 5, 4, 2]);
    let plain = node(1, false, vec![node(2, false, vec![])]);
    assert!(multicol_layout_order(&plain).is_empty());
}

#[test]
fn a_copy_is_drawn_like_the_part() {
    let marked = Pageable::BookmarkMarkerWrapper(BookmarkMarkerWrapperPageable::new(
        BookmarkMarkerPageable::new(2, "Two".to_string()),
        leaf("a"),
    ));
    let counted = Pageable::CounterOpWrapper(CounterOpWrapperPageable::new(
        vec![CounterOp::Reset { name: "n".to_string(), value: 4 }],
        leaf("b"),
    ));
    let block = BlockPageable::with_positioned_children(vec![
        PositionedChild::in_flow(Box::new(marked), 1.0, 2.0),
        PositionedChild::fixed(Box::new(counted), 3.0, 4.0),
    ])
    .with_opacity(0.5)
    .with_node_id(Some(7));
    let part = Pageable::<Plain>::TransformWrapper(TransformWrapperPageable::new(Box::new(Pageable::Block(block)), (), ()));
    let copy = part.clone();
    assert_eq!(drawn(&copy), drawn(&part));
    assert_eq!(copy.node_id(), Some(7));
    let Pageable::TransformWrapper(wrapper) = copy else { panic!("another part") };
    let Pageable::Block(block) = *wrapper.inner else { panic!("another part") };
    assert!(block.children[1].is_fixed && !block.children[0].out_of_flow);
    let Pageable::CounterOpWrapper(counted) = &*block.children[1].child else { panic!("another part") };
    assert_eq!(counted.ops, vec![CounterOp::Reset { name: "n".to_string(), value: 4 }]);
}
