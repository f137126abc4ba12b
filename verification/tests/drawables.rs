//! What there is to draw, by node.

use fulgur::drawables::{BlockEntry, Drawables, ListItemEntry, ListItemMarker, ParagraphEntry, ParagraphSlicesEntry};
use fulgur::paint::Paint;

#[derive(Debug, Clone)]
struct Plain;

#[derive(Debug, Clone)]
struct Opacity(#[allow(dead_code)] f32);

impl Default for Opacity {
    fn default() -> Self {
        Opacity(1.0)
    }
}

impl Paint for Plain {
    type Length = f32;
    type Opacity = Opacity;
    type Style = ();
    type Line = ();
    type Tree = ();
    type Encoding = ();
    type Matrix = ();
    type Point = ();
    type Rule = ();
    type Leaf = ();
    type Role = ();
}

#[test]
fn drawables_default_is_empty() {
    let d = Drawables::<Plain>::default();
    assert!(d.is_empty());
    assert_eq!(d.block_styles.len(), 0);
    assert_eq!(d.link_spans.len(), 0);
}

#[test]
fn drawables_default_paragraph_slices_is_empty() {
    let d = Drawables::<Plain>::new();
    assert!(d.paragraph_slices.is_empty());
    assert!(d.is_empty());
}

#[test]
fn drawables_new_matches_default() {
    let a = Drawables::<Plain>::new();
    let b = Drawables::<Plain>::default();
    assert_eq!(a.is_empty(), b.is_empty());
}

#[test]
fn paragraph_entry_debug_formats_summary_fields() {
    let entry: ParagraphEntry<Plain> = ParagraphEntry {
        lines: Vec::new(),
        opacity: Opacity(0.5),
        visible: true,
        id: Some(std::sync::Arc::new("anchor".to_string())),
    };
    let s = format!("{:?}", entry);
    assert!(s.contains("ParagraphEntry"));
    assert!(s.contains("lines"));
    assert!(s.contains("opacity"));
    assert!(s.contains("visible"));
    assert!(s.contains("id"));
}

#[test]
fn list_item_entry_debug_formats_summary_fields() {
    let entry: ListItemEntry<Plain> = ListItemEntry {
        marker: ListItemMarker::Text {
            lines: Vec::new(),
            width: 0.0,
        },
        marker_line_height: 12.0,
        opacity: Opacity(1.0),
        visible: true,
    };
    let s = format!("{:?}", entry);
    assert!(s.contains("ListItemEntry"));
    assert!(s.contains("marker_line_height"));
    assert!(s.contains("opacity"));
    assert!(s.contains("visible"));
}

#[test]
fn alloc_synthetic_id_starts_at_usize_max_div_2() {
    let mut d = Drawables::<Plain>::default();
    let first = d.alloc_synthetic_id();
    assert_eq!(first, usize::MAX / 2);
}

#[test]
fn alloc_synthetic_id_returns_unique_decreasing_ids() {
    let mut d = Drawables::<Plain>::default();
    let id1 = d.alloc_synthetic_id();
    let id2 = d.alloc_synthetic_id();
    let id3 = d.alloc_synthetic_id();
    assert!(id1 > id2, "IDs must decrease");
    assert!(id2 > id3, "IDs must decrease");
    assert_ne!(id1, id2);
    assert_ne!(id2, id3);
}


fn para() -> ParagraphEntry<Plain> {
    ParagraphEntry {
        lines: Vec::new(),
        opacity: Opacity(1.0),
        visible: true,
        id: None,
    }
}

fn list_item() -> ListItemEntry<Plain> {
    ListItemEntry {
        marker: ListItemMarker::Text {
            lines: Vec::new(),
            width: 0.0,
        },
        marker_line_height: 12.0,
        opacity: Opacity(1.0),
        visible: true,
    }
}

#[test]
fn drawn_since_returns_only_the_tail_sorted_and_unique() {
    let mut d = Drawables::<Plain>::new();
    d.paragraphs.insert(7, para());
    d.paragraphs.insert(3, para());
    let mark = d.draw_mark();
    // Insert descendants out of key order; a duplicate re-insert too.
    d.paragraphs.insert(30, para());
    d.paragraphs.insert(10, para());
    d.paragraphs.insert(30, para()); // re-insert same key
    // Only keys inserted after the mark, ascending, none twice.
    assert_eq!(d.drawn_since(mark), vec![10, 30]);
}

#[test]
fn drawn_since_is_independent_of_pre_mark_size() {
    // What came before the mark does not matter.
    let mut small = Drawables::<Plain>::new();
    small.paragraphs.insert(1, para());
    let m_small = small.draw_mark();
    small.paragraphs.insert(1000, para());

    let mut big = Drawables::<Plain>::new();
    for id in 0..500 {
        big.paragraphs.insert(id, para());
    }
    let m_big = big.draw_mark();
    big.paragraphs.insert(1000, para());

    assert_eq!(small.drawn_since(m_small), vec![1000]);
    assert_eq!(big.drawn_since(m_big), vec![1000]);
}

#[test]
fn drawn_since_unions_all_tracked_maps() {
    let mut d = Drawables::<Plain>::new();
    let mark = d.draw_mark();
    d.paragraphs.insert(5, para());
    d.list_items.insert(2, list_item());
    d.paragraphs.insert(9, para());
    // Keys from different maps merge into one ascending unique list.
    assert_eq!(d.drawn_since(mark), vec![2, 5, 9]);
}

#[test]
fn drawn_since_empty_when_nothing_inserted_after_mark() {
    let mut d = Drawables::<Plain>::new();
    d.paragraphs.insert(1, para());
    let mark = d.draw_mark();
    assert!(d.drawn_since(mark).is_empty());
}

#[test]
fn tracked_map_reads_pass_through_via_deref() {
    let mut d = Drawables::<Plain>::new();
    d.paragraphs.insert(42, para());
    // len / get / contains_key / keys reach BTreeMap through Deref.
    assert_eq!(d.paragraphs.len(), 1);
    assert!(d.paragraphs.contains_key(&42));
    assert!(d.paragraphs.get(&42).is_some());
    assert_eq!(d.paragraphs.keys().copied().collect::<Vec<_>>(), vec![42]);
}


fn block_entry() -> BlockEntry<Plain> {
    BlockEntry {
        style: Default::default(),
        opacity: Opacity(1.0),
        visible: true,
        id: None,
        layout_size: None,
        clip_descendants: vec![],
        opacity_descendants: vec![],
    }
}

#[test]
fn min_paragraph_since_none_when_no_paragraphs_inserted_after_mark() {
    let mut d = Drawables::<Plain>::default();
    d.paragraphs.insert(5, para());
    let mark = d.draw_mark();
    // Nothing inserted.
    assert_eq!(d.min_paragraph_since(mark), None);
}

#[test]
fn min_paragraph_since_returns_lowest_new_node_id() {
    let mut d = Drawables::<Plain>::default();
    d.paragraphs.insert(1, para()); // pre-mark
    let mark = d.draw_mark();
    d.paragraphs.insert(10, para());
    d.paragraphs.insert(5, para());
    d.paragraphs.insert(20, para());
    assert_eq!(d.min_paragraph_since(mark), Some(5));
}

#[test]
fn min_paragraph_since_ignores_other_maps() {
    let mut d = Drawables::<Plain>::default();
    let mark = d.draw_mark();
    d.block_styles.insert(1, block_entry());
    d.paragraphs.insert(7, para());
    assert_eq!(d.min_paragraph_since(mark), Some(7));
}

#[test]
fn values_change_in_place_without_a_new_insertion() {
    let mut d = Drawables::<Plain>::new();
    d.paragraphs.insert(4, para());
    let mark = d.draw_mark();
    d.paragraphs.get_mut(&4).unwrap().visible = false;
    assert!(!d.paragraphs.get(&4).unwrap().visible);
    assert!(d.paragraphs.get_mut(&5).is_none());
    assert!(d.drawn_since(mark).is_empty());
}

#[test]
fn an_insertion_returns_what_it_replaces() {
    let mut d = Drawables::<Plain>::new();
    assert!(d.paragraphs.insert(1, para()).is_none());
    let hidden = ParagraphEntry { visible: false, ..para() };
    assert!(d.paragraphs.insert(1, hidden).unwrap().visible);
    assert!(!d.paragraphs.get(&1).unwrap().visible);
    assert_eq!(d.paragraphs.len(), 1);
}

#[test]
fn new_keys_are_those_that_were_not_there() {
    let mut d = Drawables::<Plain>::new();
    d.list_items.insert(2, list_item());
    d.block_styles.insert(8, block_entry());
    let before: Vec<usize> = d.list_items.keys().copied().collect();
    let mark = d.draw_mark();
    for id in [40, 31, 35] {
        d.list_items.insert(id, list_item());
    }
    let difference: Vec<usize> = d.list_items.keys().copied().filter(|id| !before.contains(id)).collect();
    assert_eq!(d.drawn_since(mark), difference);
}

#[test]
fn any_map_makes_drawables_count() {
    let mut d = Drawables::<Plain>::new();
    d.body_offset_pt = (3.0, 4.0);
    assert!(d.is_empty());
    d.semantics.insert(1, ());
    assert!(!d.is_empty());
}

#[test]
fn a_clone_keeps_what_is_drawn_and_in_which_order() {
    let mut d = Drawables::<Plain>::default();
    d.block_styles.insert(8, block_entry());
    let mark = d.draw_mark();
    d.paragraphs.insert(5, para());
    d.block_styles.insert(3, block_entry());
    let mut copy = d.clone();
    assert_eq!(copy.drawn_since(mark), vec![3, 5]);
    copy.block_styles.insert(4, block_entry());
    assert_eq!(copy.drawn_since(mark), vec![3, 4, 5]);
    assert_eq!(d.drawn_since(mark), vec![3, 5]);
    assert_eq!(d.alloc_synthetic_id(), copy.alloc_synthetic_id());
}

#[test]
fn no_slices_by_default() {
    let entry = ParagraphSlicesEntry::<Plain>::default();
    assert_eq!(entry.container_node_id, 0);
    assert!(entry.slices.is_empty());
}
