use zen_core::editor::Editor;
use zen_core::event::{Axis, DragEvent, Event};
use zen_core::pane_tree::{Pane, PaneTree};

fn leaf_id(t: &PaneTree) -> usize {
    match t {
        PaneTree::Leaf(p) => p.id,
        PaneTree::Split { .. } => panic!("expected a leaf"),
    }
}

#[test]
fn split_then_close_restores_single_pane() {
    let mut e = Editor::new();
    e.update(&Event::Split(Axis::Horizontal, 0));
    assert_eq!(e.focus, Some(1));
    e.update(&Event::Close(1));
    assert_eq!(e.panes, PaneTree::Leaf(Pane::new(0)));
    assert_eq!(e.focus, Some(0));
}

#[test]
fn two_splits_nest_and_resize_clamps() {
    let mut e = Editor::new();
    e.update(&Event::Split(Axis::Horizontal, 0));
    e.update(&Event::Split(Axis::Vertical, 0));
    match &e.panes {
        PaneTree::Split { id, axis, ratio, left, right } => {
            assert_eq!(*id, 0);
            assert_eq!(*axis, Axis::Horizontal);
            assert_eq!(*ratio, 500);
            assert_eq!(leaf_id(right), 1);
            match &**left {
                PaneTree::Split { id, axis, ratio, left, right } => {
                    assert_eq!(*id, 1);
                    assert_eq!(*axis, Axis::Vertical);
                    assert_eq!(*ratio, 500);
                    assert_eq!(leaf_id(left), 0);
                    assert_eq!(leaf_id(right), 2);
                },
                PaneTree::Leaf(_) => panic!("expected the original pane to be split again"),
            }
        },
        PaneTree::Leaf(_) => panic!("expected a split"),
    }
    e.update(&Event::PaneResized(0, 1500));
    match &e.panes {
        PaneTree::Split { id: 0, ratio, .. } => assert_eq!(*ratio, 999),
        _ => panic!("expected the outer split"),
    }
    e.update(&Event::PaneResized(0, 0));
    match &e.panes {
        PaneTree::Split { id: 0, ratio, .. } => assert_eq!(*ratio, 1),
        _ => panic!("expected the outer split"),
    }
}

#[test]
fn resize_touches_only_the_addressed_split() {
    let mut e = Editor::new();
    e.update(&Event::Split(Axis::Horizontal, 0));
    e.update(&Event::Split(Axis::Vertical, 0));
    e.update(&Event::PaneResized(1, 250));
    match &e.panes {
        PaneTree::Split { id: 0, ratio, left, .. } => {
            assert_eq!(*ratio, 500);
            match &**left {
                PaneTree::Split { id: 1, ratio, .. } => assert_eq!(*ratio, 250),
                _ => panic!("expected the inner split"),
            }
        },
        _ => panic!("expected the outer split"),
    }
}

#[test]
fn split_of_missing_pane_is_noop() {
    let mut e = Editor::new();
    e.update(&Event::Split(Axis::Horizontal, 9));
    assert_eq!(e.panes, PaneTree::Leaf(Pane::new(0)));
    assert_eq!(e.focus, Some(0));
    assert_eq!(e.next_pane_id, 1);
}

#[test]
fn close_of_last_pane_is_noop() {
    let mut e = Editor::new();
    e.update(&Event::Close(0));
    assert_eq!(e.panes, PaneTree::Leaf(Pane::new(0)));
    assert_eq!(e.focus, Some(0));
}

#[test]
fn pinned_pane_refuses_close() {
    let mut e = Editor::new();
    e.update(&Event::Split(Axis::Horizontal, 0));
    e.update(&Event::TogglePin(0));
    e.update(&Event::Close(0));
    match &e.panes {
        PaneTree::Split { left, right, .. } => {
            assert_eq!(leaf_id(left), 0);
            assert_eq!(leaf_id(right), 1);
        },
        PaneTree::Leaf(_) => panic!("the pinned pane must survive"),
    }
    e.update(&Event::TogglePin(0));
    e.update(&Event::Close(0));
    assert_eq!(leaf_id(&e.panes), 1);
}

#[test]
fn toggle_pin_flips_the_flag_only() {
    let mut e = Editor::new();
    e.update(&Event::TogglePin(0));
    match &e.panes {
        PaneTree::Leaf(p) => assert!(p.is_pinned),
        _ => panic!("expected a leaf"),
    }
    assert_eq!(e.focus, Some(0));
    e.update(&Event::TogglePin(0));
    match &e.panes {
        PaneTree::Leaf(p) => assert!(!p.is_pinned),
        _ => panic!("expected a leaf"),
    }
}

#[test]
fn click_moves_focus() {
    let mut e = Editor::new();
    e.update(&Event::Split(Axis::Horizontal, 0));
    assert_eq!(e.focus, Some(1));
    e.update(&Event::PaneClicked(0));
    assert_eq!(e.focus, Some(0));
}

#[test]
fn click_on_missing_pane_is_noop() {
    let mut e = Editor::new();
    e.update(&Event::PaneClicked(7));
    assert_eq!(e.focus, Some(0));
}

#[test]
fn drop_swaps_the_two_leaves() {
    let mut e = Editor::new();
    e.update(&Event::Split(Axis::Horizontal, 0));
    e.update(&Event::PaneDragged(DragEvent::Dropped { pane: 0, target: 1 }));
    match &e.panes {
        PaneTree::Split { left, right, .. } => {
            assert_eq!(leaf_id(left), 1);
            assert_eq!(leaf_id(right), 0);
        },
        PaneTree::Leaf(_) => panic!("expected a split"),
    }
}

#[test]
fn drop_outside_any_pane_is_noop() {
    let mut e = Editor::new();
    e.update(&Event::Split(Axis::Horizontal, 0));
    e.update(&Event::PaneDragged(DragEvent::Dropped { pane: 0, target: 9 }));
    match &e.panes {
        PaneTree::Split { left, right, .. } => {
            assert_eq!(leaf_id(left), 0);
            assert_eq!(leaf_id(right), 1);
        },
        PaneTree::Leaf(_) => panic!("expected a split"),
    }
    e.update(&Event::PaneDragged(DragEvent::Canceled { pane: 0 }));
    match &e.panes {
        PaneTree::Split { left, right, .. } => {
            assert_eq!(leaf_id(left), 0);
            assert_eq!(leaf_id(right), 1);
        },
        PaneTree::Leaf(_) => panic!("expected a split"),
    }
}

#[test]
fn pane_ids_are_never_reused() {
    let mut e = Editor::new();
    e.update(&Event::Split(Axis::Horizontal, 0));
    e.update(&Event::Close(1));
    e.update(&Event::Split(Axis::Vertical, 0));
    match &e.panes {
        PaneTree::Split { left, right, .. } => {
            assert_eq!(leaf_id(left), 0);
            assert_eq!(leaf_id(right), 2);
        },
        PaneTree::Leaf(_) => panic!("expected a split"),
    }
    assert_eq!(e.next_pane_id, 3);
}

#[test]
fn resize_of_missing_split_changes_nothing() {
    let mut e = Editor::new();
    e.update(&Event::Split(Axis::Horizontal, 0));
    e.update(&Event::PaneResized(9, 250));
    match &e.panes {
        PaneTree::Split { ratio, .. } => assert_eq!(*ratio, 500),
        PaneTree::Leaf(_) => panic!("expected a split"),
    }
}
