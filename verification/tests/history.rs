use inkpdf::document::{Color, Page, PageKind, PagePattern, A4_HEIGHT, A4_WIDTH, DEFAULT_PATTERN_SPACING};
use inkpdf::history::{History, HISTORY_LIMIT};

fn a4_page() -> Page {
    Page {
        kind: PageKind::Blank {
            color: Color::white(),
            pattern: PagePattern::Plain,
            pattern_spacing: DEFAULT_PATTERN_SPACING,
        },
        width: A4_WIDTH,
        height: A4_HEIGHT,
        annotations: vec![],
    }
}

#[test]
fn history_record_clears_redo_and_caps() {
    let mut h = History::default();
    h.redo.push(vec![a4_page()]); // stale redo
    h.record(vec![a4_page()]);
    assert_eq!(h.undo.len(), 1);
    assert!(h.redo.is_empty(), "recording a new change must invalidate redo");

    for _ in 0..(HISTORY_LIMIT + 10) {
        h.record(vec![a4_page()]);
    }
    assert_eq!(h.undo.len(), HISTORY_LIMIT, "undo stack is capped");
}

#[test]
fn history_step_round_trips() {
    let mut h = History::default();
    // One recorded change: pages went from empty -> [page].
    h.record(vec![]);
    let current = vec![a4_page()];

    // Undo: restore empty, current pushed to redo.
    let undone = h.step(current.clone(), false).unwrap();
    assert!(undone.is_empty());
    assert!(h.undo.is_empty());
    assert_eq!(h.redo.len(), 1);

    // Redo: restore [page].
    let redone = h.step(undone, true).unwrap();
    assert_eq!(redone.len(), 1);
    assert_eq!(h.undo.len(), 1);
    assert!(h.redo.is_empty());

    // Nothing left to redo.
    assert!(h.step(redone, true).is_none());
}

#[test]
fn history_cap_drops_the_oldest_snapshot() {
    let mut h: History<usize> = History::new();
    for i in 0..(HISTORY_LIMIT + 3) {
        h.record(i);
    }
    assert_eq!(h.undo.len(), HISTORY_LIMIT);
    assert_eq!(h.undo[0], 3);
    assert_eq!(*h.undo.last().unwrap(), HISTORY_LIMIT + 2);
}

#[test]
fn undo_then_redo_restores_both_stacks() {
    let mut h: History<u32> = History::new();
    h.record(1);
    h.record(2);
    let before_undo = h.undo.clone();
    let prev = h.step(3, false).unwrap();
    assert_eq!(prev, 2);
    let back = h.step(prev, true).unwrap();
    assert_eq!(back, 3);
    assert_eq!(h.undo, before_undo);
    assert!(h.redo.is_empty());
}

#[test]
fn step_on_empty_stack_keeps_history() {
    let mut h: History<u32> = History::new();
    assert_eq!(h.step(7, false), None);
    assert!(h.undo.is_empty() && h.redo.is_empty());
}
