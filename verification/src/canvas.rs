//! Decisions the drawing canvas makes that do not depend on geometry: which
//! page is current, where a page is inserted or deleted, what a key press
//! does, and how a text-edit session ends.

use vstd::prelude::*;

use crate::document::{
    nan_free_kind, nan_free_page, nan_free_pages, nan_free_style, pages_equal, runs_view, same_annotation,
    same_page, same_pages, same_point, same_run, Annotation, AnnotationKind, Page, TextAnnotation,
};
use crate::history::{recorded, History};
use crate::text_edit::{glyphs_view, is_ws, maximal_runs, TextEdit};

verus! {

/// Where an insert/delete acts relative to the current page.
#[derive(Clone, Copy, Debug, PartialEq, Eq, Structural)]
pub enum Relative {
    Before,
    After,
}

/// The selectable tools.
#[derive(Clone, Copy, Debug, PartialEq, Eq, Structural)]
pub enum Tool {
    Select,
    Text,
    Pen,
    Eraser,
    Shape,
    /// Rectangle multi-select: drag a marquee to select strokes/shapes/text,
    /// then move or bulk-restyle the group, or delete it.
    Lasso,
    Markdown,
    Pages,
}

/// The current page index, clamped to the document (0 when it is empty).
pub fn current_index(current: usize, count: usize) -> (r: usize)
    ensures
        r == if count == 0 {
            0
        } else if current < count {
            current as int
        } else {
            count - 1
        },
{
    let last = if count > 0 { count - 1 } else { 0 };
    if current < last { current } else { last }
}

/// Index at which a new blank page goes: before or after the current page,
/// or 0 in an empty document.
pub fn insert_position(rel: Relative, current: usize, empty: bool) -> (r: usize)
    requires
        current < usize::MAX,
    ensures
        r == if empty {
            0
        } else {
            match rel {
                Relative::Before => current as int,
                Relative::After => current + 1,
            }
        },
{
    if empty {
        0
    } else {
        match rel {
            Relative::Before => current,
            Relative::After => current + 1,
        }
    }
}

/// The page before or after the current one, if there can be one.
pub fn delete_target(rel: Relative, current: usize) -> (r: Option<usize>)
    requires
        current < usize::MAX,
    ensures
        r == match rel {
            Relative::Before => if current > 0 {
                Some((current - 1) as usize)
            } else {
                None
            },
            Relative::After => Some((current + 1) as usize),
        },
{
    match rel {
        Relative::Before => if current > 0 {
            Some(current - 1)
        } else {
            None
        },
        Relative::After => Some(current + 1),
    }
}

/// Whether deleting the page before / after the current one is possible,
/// for enabling the two menu entries.
pub fn neighbour_deletable(count: usize, current: usize) -> (r: (bool, bool))
    ensures
        r == (count > 0 && current > 0, count > 0 && current + 1 < count),
{
    (count > 0 && current > 0, count > 0 && current < count && count - current > 1)
}

/// The keys the canvas reacts to; everything else is `Other` (and may still
/// type its character).
#[derive(Clone, Copy, Debug, PartialEq, Eq, Structural)]
pub enum KeyCode {
    Z,
    Y,
    /// `+`, keypad `+`, or `=`.
    Plus,
    /// `-` or keypad `-`.
    Minus,
    Escape,
    /// Return or keypad Enter.
    Return,
    BackSpace,
    /// Delete or keypad Delete.
    Delete,
    Left,
    Right,
    Up,
    Down,
    Home,
    End,
    A,
    Other,
}

/// A key press: the key, the character it types (if any) and the modifiers.
#[derive(Clone, Copy, Debug, PartialEq, Eq, Structural)]
pub struct KeyPress {
    pub code: KeyCode,
    pub unicode: Option<char>,
    pub ctrl: bool,
    pub shift: bool,
}

/// An edit of the text box being typed in; `extend` keeps the selection
/// while moving the caret.
#[derive(Clone, Copy, Debug, PartialEq, Eq, Structural)]
pub enum EditOp {
    Insert(char),
    Backspace,
    DeleteForward,
    Left { extend: bool },
    Right { extend: bool },
    WordLeft { extend: bool },
    WordRight { extend: bool },
    Up { extend: bool },
    Down { extend: bool },
    Home { extend: bool },
    End { extend: bool },
    SelectAll,
}

/// What a key press does.
#[derive(Clone, Copy, Debug, PartialEq, Eq, Structural)]
pub enum KeyAction {
    Undo,
    Redo,
    ZoomIn,
    ZoomOut,
    /// Delete the lasso-selected group.
    DeleteLassoSelection,
    /// Delete the single selected annotation.
    DeleteSelection,
    /// Abandon the text edit, restoring the box as it was.
    CancelEdit,
    /// Finish the text edit.
    CommitEdit,
    Edit(EditOp),
    /// Not handled: let the event propagate.
    Ignore,
}

/// `char::is_control`: the Unicode general category Cc.
pub open spec fn is_control(c: char) -> bool {
    let u = c as u32;
    u <= 0x1f || (0x7f <= u <= 0x9f)
}

/// The action for `key`: Ctrl shortcuts for undo/redo/zoom work everywhere;
/// outside a text edit only Delete/BackSpace act (on the lasso group first,
/// else on the selected annotation); inside one, keys edit the text.
pub open spec fn spec_key_action(key: KeyPress, editing: bool, lasso: bool, selected: bool) -> KeyAction {
    if key.ctrl && key.code == KeyCode::Z && key.shift {
        KeyAction::Redo
    } else if key.ctrl && key.code == KeyCode::Z {
        KeyAction::Undo
    } else if key.ctrl && key.code == KeyCode::Y {
        KeyAction::Redo
    } else if key.ctrl && key.code == KeyCode::Plus {
        KeyAction::ZoomIn
    } else if key.ctrl && key.code == KeyCode::Minus {
        KeyAction::ZoomOut
    } else if !editing {
        if (key.code == KeyCode::Delete || key.code == KeyCode::BackSpace) && lasso {
            KeyAction::DeleteLassoSelection
        } else if (key.code == KeyCode::Delete || key.code == KeyCode::BackSpace) && selected {
            KeyAction::DeleteSelection
        } else {
            KeyAction::Ignore
        }
    } else {
        let extend = key.shift;
        match key.code {
            KeyCode::Escape => KeyAction::CancelEdit,
            KeyCode::Return => if key.ctrl {
                KeyAction::CommitEdit
            } else {
                KeyAction::Edit(EditOp::Insert('\n'))
            },
            KeyCode::BackSpace => KeyAction::Edit(EditOp::Backspace),
            KeyCode::Delete => KeyAction::Edit(EditOp::DeleteForward),
            KeyCode::Left => if key.ctrl {
                KeyAction::Edit(EditOp::WordLeft { extend })
            } else {
                KeyAction::Edit(EditOp::Left { extend })
            },
            KeyCode::Right => if key.ctrl {
                KeyAction::Edit(EditOp::WordRight { extend })
            } else {
                KeyAction::Edit(EditOp::Right { extend })
            },
            KeyCode::Up => KeyAction::Edit(EditOp::Up { extend }),
            KeyCode::Down => KeyAction::Edit(EditOp::Down { extend }),
            KeyCode::Home => KeyAction::Edit(EditOp::Home { extend }),
            KeyCode::End => KeyAction::Edit(EditOp::End { extend }),
            _ => if key.code == KeyCode::A && key.ctrl {
                KeyAction::Edit(EditOp::SelectAll)
            } else {
                match key.unicode {
                    Some(c) => if !is_control(c) {
                        KeyAction::Edit(EditOp::Insert(c))
                    } else {
                        KeyAction::Ignore
                    },
                    None => KeyAction::Ignore,
                }
            },
        }
    }
}

/// Decides what `key` does, given whether a text box is being edited and
/// whether a lasso group / a single annotation is selected.
pub fn key_action(key: KeyPress, editing: bool, lasso: bool, selected: bool) -> (r: KeyAction)
    ensures
        r == spec_key_action(key, editing, lasso, selected),
{
    if key.ctrl {
        match key.code {
            KeyCode::Z => return if key.shift {
                KeyAction::Redo
            } else {
                KeyAction::Undo
            },
            KeyCode::Y => return KeyAction::Redo,
            KeyCode::Plus => return KeyAction::ZoomIn,
            KeyCode::Minus => return KeyAction::ZoomOut,
            _ => {},
        }
    }
    if !editing {
        let delete_key = match key.code {
            KeyCode::Delete | KeyCode::BackSpace => true,
            _ => false,
        };
        if delete_key && lasso {
            return KeyAction::DeleteLassoSelection;
        }
        if delete_key && selected {
            return KeyAction::DeleteSelection;
        }
        return KeyAction::Ignore;
    }
    let extend = key.shift;
    match key.code {
        KeyCode::Escape => KeyAction::CancelEdit,
        KeyCode::Return => if key.ctrl {
            KeyAction::CommitEdit
        } else {
            KeyAction::Edit(EditOp::Insert('\n'))
        },
        KeyCode::BackSpace => KeyAction::Edit(EditOp::Backspace),
        KeyCode::Delete => KeyAction::Edit(EditOp::DeleteForward),
        KeyCode::Left => if key.ctrl {
            KeyAction::Edit(EditOp::WordLeft { extend })
        } else {
            KeyAction::Edit(EditOp::Left { extend })
        },
        KeyCode::Right => if key.ctrl {
            KeyAction::Edit(EditOp::WordRight { extend })
        } else {
            KeyAction::Edit(EditOp::Right { extend })
        },
        KeyCode::Up => KeyAction::Edit(EditOp::Up { extend }),
        KeyCode::Down => KeyAction::Edit(EditOp::Down { extend }),
        KeyCode::Home => KeyAction::Edit(EditOp::Home { extend }),
        KeyCode::End => KeyAction::Edit(EditOp::End { extend }),
        _ => {
            let select_all = match key.code {
                KeyCode::A => key.ctrl,
                _ => false,
            };
            if select_all {
                KeyAction::Edit(EditOp::SelectAll)
            } else {
                match key.unicode {
                    Some(c) => {
                        let u = c as u32;
                        if !(u <= 0x1f || (0x7f <= u && u <= 0x9f)) {
                            KeyAction::Edit(EditOp::Insert(c))
                        } else {
                            KeyAction::Ignore
                        }
                    },
                    None => KeyAction::Ignore,
                }
            }
        },
    }
}

/// Undo, redo and zoom shortcuts do the same whether or not a text box is
/// being edited and whatever is selected.
pub proof fn lemma_shortcuts_everywhere(key: KeyPress, editing: bool, lasso: bool, selected: bool)
    requires
        key.ctrl,
        key.code == KeyCode::Z || key.code == KeyCode::Y || key.code == KeyCode::Plus || key.code
            == KeyCode::Minus,
    ensures
        spec_key_action(key, editing, lasso, selected) == spec_key_action(key, false, false, false),
        key.code == KeyCode::Z ==> spec_key_action(key, editing, lasso, selected) == if key.shift {
            KeyAction::Redo
        } else {
            KeyAction::Undo
        },
{
}

/// Outside a text edit, Delete and BackSpace remove the lasso group if
/// there is one, else the selected annotation; with neither they are
/// ignored.
pub proof fn lemma_delete_outside_editing(key: KeyPress, lasso: bool, selected: bool)
    requires
        !key.ctrl,
        key.code == KeyCode::Delete || key.code == KeyCode::BackSpace,
    ensures
        spec_key_action(key, false, lasso, selected) == if lasso {
            KeyAction::DeleteLassoSelection
        } else if selected {
            KeyAction::DeleteSelection
        } else {
            KeyAction::Ignore
        },
{
}

/// While a text box is being edited, BackSpace removes the character
/// before the caret and Delete the one after it, whatever the modifiers
/// and the selection state: the two keys never do the same edit.
pub proof fn lemma_backspace_and_delete_while_editing(key: KeyPress, lasso: bool, selected: bool)
    ensures
        key.code == KeyCode::BackSpace ==> spec_key_action(key, true, lasso, selected) == KeyAction::Edit(
            EditOp::Backspace,
        ),
        key.code == KeyCode::Delete ==> spec_key_action(key, true, lasso, selected) == KeyAction::Edit(
            EditOp::DeleteForward,
        ),
        spec_key_action(KeyPress { code: KeyCode::BackSpace, ..key }, true, lasso, selected) != spec_key_action(
            KeyPress { code: KeyCode::Delete, ..key },
            true,
            lasso,
            selected,
        ),
{
}

/// While a text box is being edited, the arrow, Home and End keys move the
/// caret the way they are named (Ctrl+arrow by words), extending the
/// selection exactly when Shift is held; Escape abandons the edit,
/// Ctrl+Return finishes it and Return types a newline.
pub proof fn lemma_editing_keys_move_as_named(key: KeyPress, lasso: bool, selected: bool)
    ensures
        ({
            let r = spec_key_action(key, true, lasso, selected);
            let extend = key.shift;
            &&& key.code == KeyCode::Left ==> r == if key.ctrl {
                KeyAction::Edit(EditOp::WordLeft { extend })
            } else {
                KeyAction::Edit(EditOp::Left { extend })
            }
            &&& key.code == KeyCode::Right ==> r == if key.ctrl {
                KeyAction::Edit(EditOp::WordRight { extend })
            } else {
                KeyAction::Edit(EditOp::Right { extend })
            }
            &&& key.code == KeyCode::Up ==> r == KeyAction::Edit(EditOp::Up { extend })
            &&& key.code == KeyCode::Down ==> r == KeyAction::Edit(EditOp::Down { extend })
            &&& key.code == KeyCode::Home ==> r == KeyAction::Edit(EditOp::Home { extend })
            &&& key.code == KeyCode::End ==> r == KeyAction::Edit(EditOp::End { extend })
            &&& key.code == KeyCode::Escape ==> r == KeyAction::CancelEdit
            &&& key.code == KeyCode::Return ==> r == if key.ctrl {
                KeyAction::CommitEdit
            } else {
                KeyAction::Edit(EditOp::Insert('\n'))
            }
        }),
{
}

/// While a text box is being edited, a key without Ctrl that types a
/// printable character inserts that character, and Ctrl+A selects all.
pub proof fn lemma_editing_keys_type(key: KeyPress, lasso: bool, selected: bool)
    ensures
        match key.unicode {
            Some(c) => key.code == KeyCode::Other && !key.ctrl && !is_control(c) ==> spec_key_action(
                key,
                true,
                lasso,
                selected,
            ) == KeyAction::Edit(EditOp::Insert(c)),
            None => true,
        },
        key.code == KeyCode::A && key.ctrl ==> spec_key_action(key, true, lasso, selected) == KeyAction::Edit(
            EditOp::SelectAll,
        ),
{
}

/// Whether `tool` draws, shapes or erases through drags (and ignores clicks).
pub open spec fn is_drawing_tool(tool: Tool) -> bool {
    tool == Tool::Pen || tool == Tool::Shape || tool == Tool::Eraser
}

/// What a click does.
#[derive(Clone, Copy, Debug, PartialEq, Eq, Structural)]
pub enum ClickAction {
    /// Nothing: drawing tools act through drags.
    Ignore,
    /// Finish any text edit and make the annotation under the click, if
    /// any, the whole lasso selection.
    LassoSelect,
    /// Nothing: the click lands in the text box being edited, whose caret
    /// the press has already placed.
    InEditedBox,
    /// Finish any text edit, then edit the text annotation under the click.
    EditAnnotation,
    /// Finish any text edit, then start a new text box at the click.
    NewText,
    /// Finish any text edit, then select the annotation under the click (or
    /// nothing, off any annotation).
    Select,
    /// Finish any text edit and do nothing else.
    Commit,
}

/// The action for a click (`n_press` counts the clicks in a row): drawing
/// tools ignore clicks and the lasso selects; otherwise a click in the box
/// being edited leaves it alone, and any other click finishes the edit and
/// then, with the text tool, edits the annotation hit or starts a new box
/// on the page; without it, a double click edits the annotation hit and a
/// single click selects it.
pub open spec fn spec_click_action(
    tool: Tool,
    text_mode: bool,
    n_press: i32,
    on_page: bool,
    in_edited_box: bool,
    on_annotation: bool,
) -> ClickAction {
    if is_drawing_tool(tool) {
        ClickAction::Ignore
    } else if tool == Tool::Lasso {
        ClickAction::LassoSelect
    } else if in_edited_box {
        ClickAction::InEditedBox
    } else if text_mode {
        if on_annotation {
            ClickAction::EditAnnotation
        } else if on_page {
            ClickAction::NewText
        } else {
            ClickAction::Commit
        }
    } else if n_press == 2 {
        if on_annotation {
            ClickAction::EditAnnotation
        } else {
            ClickAction::Commit
        }
    } else {
        ClickAction::Select
    }
}

/// Decides what a click does, given the active tool, whether the text tool
/// is on, the click count, and whether the click lands on a page, in the
/// box being edited, and on an annotation.
pub fn click_action(
    tool: Tool,
    text_mode: bool,
    n_press: i32,
    on_page: bool,
    in_edited_box: bool,
    on_annotation: bool,
) -> (r: ClickAction)
    ensures
        r == spec_click_action(tool, text_mode, n_press, on_page, in_edited_box, on_annotation),
{
    match tool {
        Tool::Pen | Tool::Shape | Tool::Eraser => ClickAction::Ignore,
        Tool::Lasso => ClickAction::LassoSelect,
        _ => if in_edited_box {
            ClickAction::InEditedBox
        } else if text_mode {
            if on_annotation {
                ClickAction::EditAnnotation
            } else if on_page {
                ClickAction::NewText
            } else {
                ClickAction::Commit
            }
        } else if n_press == 2 {
            if on_annotation {
                ClickAction::EditAnnotation
            } else {
                ClickAction::Commit
            }
        } else {
            ClickAction::Select
        },
    }
}

/// What pressing to start a drag does.
#[derive(Clone, Copy, Debug, PartialEq, Eq, Structural)]
pub enum DragStart {
    /// Start a pen stroke, a shape or erasing.
    Draw,
    /// Start a lasso gesture (marquee or group move).
    Lasso,
    /// Place the caret (and selection anchor) in the box being edited, if
    /// the press lands in it.
    SelectText,
    /// Mark the annotation under the press as the one to move, and select it.
    GrabAnnotation,
    /// Nothing.
    Ignore,
}

/// The drag start for a press: drawing tools draw and the lasso lassos;
/// otherwise a press during a text edit selects text, the text tool (with
/// no edit yet) does nothing, and elsewhere a press on an annotation grabs
/// it.
pub open spec fn spec_drag_start(tool: Tool, editing: bool, text_mode: bool, on_annotation: bool) -> DragStart {
    if is_drawing_tool(tool) {
        DragStart::Draw
    } else if tool == Tool::Lasso {
        DragStart::Lasso
    } else if editing {
        DragStart::SelectText
    } else if text_mode {
        DragStart::Ignore
    } else if on_annotation {
        DragStart::GrabAnnotation
    } else {
        DragStart::Ignore
    }
}

/// Decides what a press that may start a drag does.
pub fn drag_start(tool: Tool, editing: bool, text_mode: bool, on_annotation: bool) -> (r: DragStart)
    ensures
        r == spec_drag_start(tool, editing, text_mode, on_annotation),
{
    match tool {
        Tool::Pen | Tool::Shape | Tool::Eraser => DragStart::Draw,
        Tool::Lasso => DragStart::Lasso,
        _ => if editing {
            DragStart::SelectText
        } else if text_mode {
            DragStart::Ignore
        } else if on_annotation {
            DragStart::GrabAnnotation
        } else {
            DragStart::Ignore
        },
    }
}

/// Drawing tools act only through drags: a click with them does nothing
/// and a press starts drawing. The lasso lassos on clicks and drags alike.
/// With another tool, a click in the box being edited leaves the edit
/// alone, and a press during an edit selects text.
pub proof fn lemma_tools_on_click_and_drag(
    tool: Tool,
    text_mode: bool,
    n_press: i32,
    on_page: bool,
    in_edited_box: bool,
    on_annotation: bool,
    editing: bool,
)
    ensures
        is_drawing_tool(tool) ==> spec_click_action(tool, text_mode, n_press, on_page, in_edited_box, on_annotation)
            == ClickAction::Ignore && spec_drag_start(tool, editing, text_mode, on_annotation) == DragStart::Draw,
        tool == Tool::Lasso ==> spec_click_action(tool, text_mode, n_press, on_page, in_edited_box, on_annotation)
            == ClickAction::LassoSelect && spec_drag_start(tool, editing, text_mode, on_annotation) == DragStart::Lasso,
        !is_drawing_tool(tool) && tool != Tool::Lasso && in_edited_box ==> spec_click_action(
            tool,
            text_mode,
            n_press,
            on_page,
            in_edited_box,
            on_annotation,
        ) == ClickAction::InEditedBox,
        !is_drawing_tool(tool) && tool != Tool::Lasso && editing ==> spec_drag_start(
            tool,
            editing,
            text_mode,
            on_annotation,
        ) == DragStart::SelectText,
{
}

/// The active tab after closing tab `closed` (of `count_after + 1` tabs)
/// while tab `active` was active: the same tab if it survives (shifted down
/// if it came after the closed one), else the one now at the closed slot,
/// or the last.
pub fn active_after_close(active: usize, closed: usize, count_after: usize) -> (r: usize)
    requires
        count_after > 0,
    ensures
        r == if active == closed {
            if closed < count_after {
                closed as int
            } else {
                count_after - 1
            }
        } else if active > closed {
            active - 1
        } else {
            active as int
        },
{
    if active == closed {
        if closed < count_after {
            closed
        } else {
            count_after - 1
        }
    } else if active > closed {
        active - 1
    } else {
        active
    }
}

/// The text box a finished edit leaves on its page: `None` when the text is
/// blank (so clearing an existing box deletes it), else a box with id `id`
/// at `(x, y)` in font size `size` holding the edit's glyphs as maximal
/// style runs.
pub fn committed_text(id: u128, x: u64, y: u64, size: u64, text: &TextEdit) -> (r: Option<Annotation>)
    ensures
        r is None <==> forall|i: int| 0 <= i < text.glyphs@.len() ==> is_ws(#[trigger] text.glyphs@[i].ch),
        r matches Some(a) ==> {
            &&& a.id == id
            &&& a.kind matches AnnotationKind::Text(t)
            &&& t.x == x && t.y == y && t.size == size
            &&& runs_view(t.runs@) == glyphs_view(text.glyphs@)
            &&& maximal_runs(t.runs@)
        },
{
    if text.is_blank() {
        None
    } else {
        Some(Annotation { id, kind: AnnotationKind::Text(TextAnnotation { x, y, size, runs: text.to_runs() }) })
    }
}

/// Ends a text-edit session that began when the pages were `baseline`: the
/// whole session becomes one undo entry (the pages as they were before it),
/// recorded only when the session changed the pages. Returns whether it did.
pub fn end_edit_session(history: &mut History<Vec<Page>>, baseline: Vec<Page>, pages: &[Page]) -> (changed: bool)
    ensures
        changed == !same_pages(baseline@, pages@),
        changed ==> final(history).undo@ == recorded(old(history).undo@, baseline),
        changed ==> final(history).redo@ == Seq::<Vec<Page>>::empty(),
        !changed ==> final(history).undo@ == old(history).undo@,
        !changed ==> final(history).redo@ == old(history).redo@,
{
    if pages_equal(baseline.as_slice(), pages) {
        false
    } else {
        history.record(baseline);
        true
    }
}

/// A session that leaves the pages exactly as they were is no change, so
/// ending it adds no undo entry, as long as no number on the pages is a NaN
/// (a NaN equals nothing, so a page holding one never equals itself).
pub proof fn lemma_unchanged_session_is_no_change(pages: Seq<Page>)
    requires
        nan_free_pages(pages),
    ensures
        same_pages(pages, pages),
{
    assert forall|i: int| 0 <= i < pages.len() implies #[trigger] same_page(pages[i], pages[i]) by {
        let p = pages[i];
        assert(nan_free_page(p));
        assert forall|j: int| 0 <= j < p.annotations@.len() implies #[trigger] same_annotation(
            p.annotations@[j],
            p.annotations@[j],
        ) by {
            let k = p.annotations@[j].kind;
            assert(nan_free_kind(k));
            match k {
                AnnotationKind::Text(t) => {
                    assert forall|m: int| 0 <= m < t.runs@.len() implies #[trigger] same_run(
                        t.runs@[m],
                        t.runs@[m],
                    ) by {
                        assert(nan_free_style(t.runs@[m].style));
                    }
                },
                AnnotationKind::Stroke(s) => {
                    assert forall|m: int| 0 <= m < s.points@.len() implies #[trigger] same_point(
                        s.points@[m],
                        s.points@[m],
                    ) by {}
                },
                AnnotationKind::Shape(_) => {},
            }
        }
    }
}

} // verus!
