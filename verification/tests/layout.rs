use paneview::layout::{PaneId, PaneLayout, SplitDirection};
use paneview::rect::Rect;

#[test]
fn vertical_split_places_panes_left_and_right() {
    let first = PaneId(1);
    let second = PaneId(2);
    let mut layout = PaneLayout::new(first);

    assert!(layout.split(first, second, SplitDirection::Vertical));

    let rects = layout.rects(Rect::new(0, 0, 100, 20));
    assert_eq!(rects[&first.0], Rect::new(0, 0, 50, 20));
    assert_eq!(rects[&second.0], Rect::new(50, 0, 50, 20));
}

#[test]
fn horizontal_split_places_panes_top_and_bottom() {
    let first = PaneId(1);
    let second = PaneId(2);
    let mut layout = PaneLayout::new(first);

    assert!(layout.split(first, second, SplitDirection::Horizontal));

    let rects = layout.rects(Rect::new(0, 0, 80, 25));
    assert_eq!(rects[&first.0], Rect::new(0, 0, 80, 12));
    assert_eq!(rects[&second.0], Rect::new(0, 12, 80, 13));
}

#[test]
fn removing_a_leaf_collapses_its_parent() {
    let first = PaneId(1);
    let second = PaneId(2);
    let third = PaneId(3);
    let mut layout = PaneLayout::new(first);
    layout.split(first, second, SplitDirection::Vertical);
    layout.split(second, third, SplitDirection::Horizontal);

    assert!(layout.remove(second));
    assert_eq!(layout.leaves(), vec![first, third]);

    let rects = layout.rects(Rect::new(0, 0, 100, 20));
    assert_eq!(rects[&first.0], Rect::new(0, 0, 50, 20));
    assert_eq!(rects[&third.0], Rect::new(50, 0, 50, 20));
}

#[test]
fn split_of_missing_pane_changes_nothing() {
    let mut layout = PaneLayout::new(PaneId(1));
    assert!(!layout.split(PaneId(7), PaneId(2), SplitDirection::Vertical));
    assert_eq!(layout.leaves(), vec![PaneId(1)]);
}

#[test]
fn last_pane_is_never_removed() {
    let mut layout = PaneLayout::new(PaneId(1));
    assert!(!layout.remove(PaneId(1)));
    assert_eq!(layout.leaves(), vec![PaneId(1)]);
}

#[test]
fn remove_undoes_split() {
    let mut layout = PaneLayout::new(PaneId(1));
    layout.split(PaneId(1), PaneId(2), SplitDirection::Horizontal);
    let before = layout.leaves();
    layout.split(PaneId(2), PaneId(3), SplitDirection::Vertical);
    assert_eq!(layout.leaves(), vec![PaneId(1), PaneId(2), PaneId(3)]);
    assert!(layout.remove(PaneId(3)));
    assert_eq!(layout.leaves(), before);
}

#[test]
fn next_and_previous_cycle_through_panes() {
    let mut layout = PaneLayout::new(PaneId(1));
    layout.split(PaneId(1), PaneId(2), SplitDirection::Vertical);
    layout.split(PaneId(2), PaneId(3), SplitDirection::Vertical);
    assert_eq!(layout.first_leaf(), Some(PaneId(1)));
    assert_eq!(layout.next_leaf(PaneId(3)), Some(PaneId(1)));
    assert_eq!(layout.previous_leaf(PaneId(1)), Some(PaneId(3)));
    assert_eq!(layout.previous_leaf(layout.next_leaf(PaneId(2)).unwrap()), Some(PaneId(2)));
    assert_eq!(layout.next_leaf(PaneId(9)), None);
}

#[test]
fn rects_of_panes_do_not_overlap() {
    let mut layout = PaneLayout::new(PaneId(1));
    layout.split(PaneId(1), PaneId(2), SplitDirection::Vertical);
    layout.split(PaneId(2), PaneId(3), SplitDirection::Horizontal);
    let rects = layout.rects(Rect::new(0, 0, 101, 31));
    let a = rects[&2];
    let b = rects[&3];
    assert!(a.y + a.height <= b.y);
    assert_eq!(rects[&1], Rect::new(0, 0, 50, 31));
    assert_eq!(a, Rect::new(50, 0, 51, 15));
    assert_eq!(b, Rect::new(50, 15, 51, 16));
}

#[test]
fn fresh_splits_keep_panes_distinct() {
    let mut layout = PaneLayout::new(PaneId(1));
    assert!(layout.split(PaneId(1), PaneId(2), SplitDirection::Vertical));
    assert!(layout.split(PaneId(1), PaneId(3), SplitDirection::Horizontal));
    assert!(layout.split(PaneId(2), PaneId(4), SplitDirection::Horizontal));
    assert!(layout.remove(PaneId(3)));
    let leaves = layout.leaves();
    assert_eq!(leaves, vec![PaneId(1), PaneId(2), PaneId(4)]);
    for i in 0..leaves.len() {
        for j in (i + 1)..leaves.len() {
            assert_ne!(leaves[i], leaves[j]);
        }
    }
    assert!(!leaves.is_empty());
}
