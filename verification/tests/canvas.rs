use inkpdf::canvas::{
    active_after_close, click_action, committed_text, current_index, delete_target, drag_start, end_edit_session,
    insert_position, key_action, neighbour_deletable, ClickAction, DragStart, EditOp, KeyAction, KeyCode, KeyPress,
    Relative, Tool,
};
use inkpdf::document::{AnnotationKind, Page, PageKind, TextStyle};
use inkpdf::history::History;
use inkpdf::text_edit::TextEdit;

fn key(code: KeyCode, unicode: Option<char>, ctrl: bool, shift: bool) -> KeyPress {
    KeyPress { code, unicode, ctrl, shift }
}

#[test]
fn ctrl_shortcuts_work_in_and_out_of_editing() {
    for editing in [false, true] {
        assert_eq!(key_action(key(KeyCode::Z, Some('z'), true, false), editing, false, false), KeyAction::Undo);
        assert_eq!(key_action(key(KeyCode::Z, Some('Z'), true, true), editing, false, false), KeyAction::Redo);
        assert_eq!(key_action(key(KeyCode::Y, Some('y'), true, false), editing, false, false), KeyAction::Redo);
        assert_eq!(key_action(key(KeyCode::Plus, Some('+'), true, false), editing, false, false), KeyAction::ZoomIn);
        assert_eq!(key_action(key(KeyCode::Minus, Some('-'), true, false), editing, false, false), KeyAction::ZoomOut);
    }
}

#[test]
fn delete_outside_editing_prefers_the_lasso_group() {
    let del = key(KeyCode::Delete, None, false, false);
    let back = key(KeyCode::BackSpace, None, false, false);
    assert_eq!(key_action(del, false, true, true), KeyAction::DeleteLassoSelection);
    assert_eq!(key_action(back, false, false, true), KeyAction::DeleteSelection);
    assert_eq!(key_action(del, false, false, false), KeyAction::Ignore);
    assert_eq!(key_action(key(KeyCode::Other, Some('a'), false, false), false, false, true), KeyAction::Ignore);
}

#[test]
fn keys_edit_the_text_while_editing() {
    assert_eq!(key_action(key(KeyCode::Escape, None, false, false), true, false, false), KeyAction::CancelEdit);
    assert_eq!(key_action(key(KeyCode::Return, None, true, false), true, false, false), KeyAction::CommitEdit);
    assert_eq!(
        key_action(key(KeyCode::Return, Some('\r'), false, false), true, false, false),
        KeyAction::Edit(EditOp::Insert('\n'))
    );
    assert_eq!(
        key_action(key(KeyCode::Left, None, true, true), true, false, false),
        KeyAction::Edit(EditOp::WordLeft { extend: true })
    );
    assert_eq!(
        key_action(key(KeyCode::Right, None, false, false), true, false, false),
        KeyAction::Edit(EditOp::Right { extend: false })
    );
    assert_eq!(key_action(key(KeyCode::A, Some('a'), true, false), true, false, false), KeyAction::Edit(EditOp::SelectAll));
    assert_eq!(
        key_action(key(KeyCode::Other, Some('ä'), false, true), true, false, false),
        KeyAction::Edit(EditOp::Insert('ä'))
    );
    assert_eq!(key_action(key(KeyCode::Other, Some('\u{7}'), false, false), true, false, false), KeyAction::Ignore);
    assert_eq!(key_action(key(KeyCode::Other, None, false, false), true, false, false), KeyAction::Ignore);
    assert_eq!(key_action(key(KeyCode::BackSpace, None, false, false), true, true, true), KeyAction::Edit(EditOp::Backspace));
}

#[test]
fn current_index_is_clamped_to_the_document() {
    assert_eq!(current_index(0, 0), 0);
    assert_eq!(current_index(5, 0), 0);
    assert_eq!(current_index(2, 5), 2);
    assert_eq!(current_index(9, 5), 4);
}

#[test]
fn page_insert_and_delete_positions() {
    assert_eq!(insert_position(Relative::Before, 3, false), 3);
    assert_eq!(insert_position(Relative::After, 3, false), 4);
    assert_eq!(insert_position(Relative::After, 3, true), 0);
    assert_eq!(delete_target(Relative::Before, 0), None);
    assert_eq!(delete_target(Relative::Before, 2), Some(1));
    assert_eq!(delete_target(Relative::After, 2), Some(3));
    assert_eq!(neighbour_deletable(3, 0), (false, true));
    assert_eq!(neighbour_deletable(3, 2), (true, false));
    assert_eq!(neighbour_deletable(0, 0), (false, false));
}

#[test]
fn closing_a_tab_picks_the_next_active_one() {
    // Closing the active middle tab of 3: the tab now at its slot.
    assert_eq!(active_after_close(1, 1, 2), 1);
    // Closing the active last tab: the new last one.
    assert_eq!(active_after_close(2, 2, 2), 1);
    // Closing a tab before the active one shifts it down.
    assert_eq!(active_after_close(2, 0, 2), 1);
    // Closing a tab after it leaves it alone.
    assert_eq!(active_after_close(0, 1, 2), 0);
}

#[test]
fn clicks_depend_on_tool_and_target() {
    // Drawing tools act through drags only.
    assert_eq!(click_action(Tool::Pen, false, 1, true, false, true), ClickAction::Ignore);
    assert_eq!(click_action(Tool::Eraser, false, 2, true, false, true), ClickAction::Ignore);
    assert_eq!(click_action(Tool::Lasso, false, 1, true, false, false), ClickAction::LassoSelect);
    // A click in the box being edited leaves the edit alone.
    assert_eq!(click_action(Tool::Text, true, 1, true, true, true), ClickAction::InEditedBox);
    // The text tool edits the box hit, or starts a new one on the page.
    assert_eq!(click_action(Tool::Text, true, 1, true, false, true), ClickAction::EditAnnotation);
    assert_eq!(click_action(Tool::Text, true, 1, true, false, false), ClickAction::NewText);
    assert_eq!(click_action(Tool::Text, true, 1, false, false, false), ClickAction::Commit);
    // Otherwise a double click edits, a single click selects.
    assert_eq!(click_action(Tool::Select, false, 2, true, false, true), ClickAction::EditAnnotation);
    assert_eq!(click_action(Tool::Select, false, 2, true, false, false), ClickAction::Commit);
    assert_eq!(click_action(Tool::Select, false, 1, true, false, false), ClickAction::Select);
    assert_eq!(click_action(Tool::Pages, false, 3, true, false, true), ClickAction::Select);
}

#[test]
fn drag_starts_depend_on_tool_and_state() {
    assert_eq!(drag_start(Tool::Shape, true, false, true), DragStart::Draw);
    assert_eq!(drag_start(Tool::Lasso, false, false, true), DragStart::Lasso);
    assert_eq!(drag_start(Tool::Select, true, false, true), DragStart::SelectText);
    assert_eq!(drag_start(Tool::Text, false, true, true), DragStart::Ignore);
    assert_eq!(drag_start(Tool::Select, false, false, true), DragStart::GrabAnnotation);
    assert_eq!(drag_start(Tool::Select, false, false, false), DragStart::Ignore);
}

fn blank(width: f64) -> Page {
    Page { kind: PageKind::Pdf { page_index: 0 }, width: width.to_bits(), height: 842f64.to_bits(), annotations: vec![] }
}

fn typed(s: &str) -> TextEdit {
    let mut ed = TextEdit::new();
    for ch in s.chars() {
        ed.insert(ch, TextStyle::default());
    }
    ed
}

#[test]
fn committing_blank_text_leaves_no_box() {
    assert!(committed_text(7, 1, 2, 3, &typed("  \n")).is_none());
    assert!(committed_text(7, 1, 2, 3, &TextEdit::new()).is_none());
}

#[test]
fn committing_text_makes_a_box_with_its_runs() {
    let a = committed_text(7, 1, 2, 3, &typed("Hi there")).unwrap();
    assert_eq!(a.id, 7);
    match a.kind {
        AnnotationKind::Text(t) => {
            assert_eq!((t.x, t.y, t.size), (1, 2, 3));
            assert_eq!(t.runs.len(), 1);
            assert_eq!(t.runs[0].text, "Hi there");
        }
        _ => panic!("expected a text box"),
    }
}

#[test]
fn an_edit_session_is_one_undo_entry_only_if_it_changed_the_pages() {
    let mut history: History<Vec<Page>> = History::new();
    let before = vec![blank(595.0)];

    assert!(!end_edit_session(&mut history, before.clone(), &before));
    assert!(history.undo.is_empty());

    let after = vec![blank(595.0), blank(595.0)];
    assert!(end_edit_session(&mut history, before.clone(), &after));
    assert_eq!(history.undo, vec![before]);
    assert!(history.redo.is_empty());
}
