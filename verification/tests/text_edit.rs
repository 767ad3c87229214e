use inkpdf::document::{Color, TextAnnotation, TextStyle};
use inkpdf::text_edit::{apply_style, toggle_style, Glyph, StyleChange, StyleFlag, TextEdit};

fn glyphs_of(s: &str) -> Vec<Glyph> {
    s.chars().map(|ch| Glyph { ch, style: TextStyle::default() }).collect()
}

fn text_of(ed: &TextEdit) -> String {
    ed.glyphs.iter().map(|g| g.ch).collect()
}

fn color(r: f64, g: f64, b: f64, a: f64) -> Color {
    Color { r: r.to_bits(), g: g.to_bits(), b: b.to_bits(), a: a.to_bits() }
}

#[test]
fn text_edit_insert_delete_and_navigate() {
    let mut ed = TextEdit::new();
    for ch in "abc".chars() {
        ed.insert(ch, TextStyle::default());
    }
    assert_eq!((text_of(&ed), ed.cursor), ("abc".to_string(), 3));

    ed.move_left(false);
    ed.insert('X', TextStyle::default());
    assert_eq!((text_of(&ed), ed.cursor), ("abXc".to_string(), 3));

    ed.backspace();
    assert_eq!((text_of(&ed), ed.cursor), ("abc".to_string(), 2));

    ed.move_home(false);
    assert_eq!(ed.cursor, 0);
    ed.move_end(false);
    assert_eq!(ed.cursor, 3);
    ed.delete_forward(); // at end -> no-op
    assert_eq!(text_of(&ed), "abc");
}

#[test]
fn text_edit_vertical_keeps_column() {
    let mut ed = TextEdit::new();
    ed.glyphs = glyphs_of("ab\ncd");
    ed.cursor = 5; // end of "cd"
    ed.move_up(false);
    assert_eq!(ed.cursor, 2);
    ed.move_down(false);
    assert_eq!(ed.cursor, 5);
}

#[test]
fn shift_selects_and_color_applies_to_selection_only() {
    let mut ed = TextEdit::new();
    ed.glyphs = glyphs_of("abcd");
    ed.cursor = 1;
    ed.move_right(true); // select "b"
    ed.move_right(true); // select "bc"
    assert_eq!(ed.selection(), Some((1, 3)));

    let red = color(1.0, 0.0, 0.0, 1.0);
    assert!(ed.style_selection(&StyleChange::Color(red)));
    assert_eq!(ed.glyphs[0].style.color, Color::black());
    assert_eq!(ed.glyphs[1].style.color, red);
    assert_eq!(ed.glyphs[2].style.color, red);
    assert_eq!(ed.glyphs[3].style.color, Color::black());

    // Runs merge same-style neighbors.
    let runs = ed.to_runs();
    assert_eq!(runs.len(), 3);
    assert_eq!(runs[1].text, "bc");
}

#[test]
fn ctrl_word_navigation_jumps_by_word() {
    let mut ed = TextEdit::new();
    ed.glyphs = glyphs_of("foo bar baz");
    ed.cursor = ed.glyphs.len();
    ed.move_word_left(false);
    assert_eq!(ed.cursor, 8); // start of "baz"
    ed.move_word_left(false);
    assert_eq!(ed.cursor, 4); // start of "bar"
    ed.move_word_right(false);
    assert_eq!(ed.cursor, 7); // end of "bar"
}

#[test]
fn marker_and_bold_apply_to_selection() {
    let mut ed = TextEdit::new();
    ed.glyphs = glyphs_of("abcd");
    ed.anchor = Some(1);
    ed.cursor = 3; // "bc" selected

    let yellow = color(1.0, 0.9, 0.2, 0.4);
    assert!(ed.style_selection(&StyleChange::Highlight(Some(yellow))));
    assert!(ed.style_selection(&StyleChange::Bold(true)));
    assert_eq!(ed.glyphs[0].style.highlight, None);
    assert_eq!(ed.glyphs[1].style.highlight, Some(yellow));
    assert!(ed.glyphs[2].style.bold);
    assert!(!ed.glyphs[3].style.bold);
}

#[test]
fn typing_replaces_selection() {
    let mut ed = TextEdit::new();
    ed.glyphs = glyphs_of("abcd");
    ed.anchor = Some(1);
    ed.cursor = 3; // "bc" selected
    ed.insert('X', TextStyle::default());
    assert_eq!(text_of(&ed), "aXd");
    assert_eq!(ed.cursor, 2);
}

#[test]
fn style_selection_without_selection_changes_nothing() {
    let mut ed = TextEdit::with_glyphs(glyphs_of("ab"));
    assert!(!ed.style_selection(&StyleChange::Bold(true)));
    assert!(ed.glyphs.iter().all(|g| !g.style.bold));
}

#[test]
fn insert_then_backspace_restores_text_and_caret() {
    let mut ed = TextEdit::with_glyphs(glyphs_of("hello"));
    ed.cursor = 2;
    ed.insert('Z', TextStyle::default());
    assert_eq!(text_of(&ed), "heZllo");
    ed.backspace();
    assert_eq!(text_of(&ed), "hello");
    assert_eq!(ed.cursor, 2);
}

#[test]
fn backspace_and_delete_remove_the_selection() {
    let mut ed = TextEdit::with_glyphs(glyphs_of("abcdef"));
    ed.anchor = Some(4);
    ed.cursor = 1;
    ed.backspace();
    assert_eq!(text_of(&ed), "aef");
    assert_eq!((ed.cursor, ed.anchor), (1, None));
    ed.delete_forward();
    assert_eq!(text_of(&ed), "af");
    assert_eq!(ed.cursor, 1);
}

#[test]
fn backspace_at_start_is_a_no_op() {
    let mut ed = TextEdit::with_glyphs(glyphs_of("ab"));
    ed.cursor = 0;
    ed.backspace();
    assert_eq!((text_of(&ed), ed.cursor), ("ab".to_string(), 0));
}

#[test]
fn word_boundaries_skip_whitespace_runs() {
    let ed = TextEdit::with_glyphs(glyphs_of("  foo   bar  "));
    assert_eq!(ed.word_left(13), 8);
    assert_eq!(ed.word_left(8), 2);
    assert_eq!(ed.word_left(2), 0);
    assert_eq!(ed.word_right(0), 5);
    assert_eq!(ed.word_right(5), 11);
    assert_eq!(ed.word_right(11), 13);
}

#[test]
fn line_start_and_end_find_the_line_around_a_position() {
    let ed = TextEdit::with_glyphs(glyphs_of("ab\ncde\nf"));
    assert_eq!(ed.line_start(5), 3);
    assert_eq!(ed.line_end(5), 6);
    assert_eq!(ed.line_start(2), 0);
    assert_eq!(ed.line_end(7), 8);
}

#[test]
fn vertical_move_clamps_to_a_shorter_line_and_stays_on_the_edges() {
    let mut ed = TextEdit::with_glyphs(glyphs_of("abcdef\nxy"));
    ed.cursor = 5;
    ed.move_down(false);
    assert_eq!(ed.cursor, 9); // end of "xy"
    ed.move_down(false);
    assert_eq!(ed.cursor, 9); // already on the last line
    ed.cursor = 1;
    ed.move_up(false);
    assert_eq!(ed.cursor, 1); // already on the first line
}

#[test]
fn select_all_and_blank_detection() {
    let mut ed = TextEdit::with_glyphs(glyphs_of(" \n\t"));
    assert!(ed.is_blank());
    ed.select_all();
    assert_eq!(ed.selection(), Some((0, 3)));
    ed.insert('q', TextStyle::default());
    assert!(!ed.is_blank());
    assert_eq!(text_of(&ed), "q");
}

#[test]
fn set_cursor_clamps_and_extends() {
    let mut ed = TextEdit::with_glyphs(glyphs_of("abc"));
    ed.set_cursor(1, false);
    ed.set_cursor(99, true);
    assert_eq!(ed.cursor, 3);
    assert_eq!(ed.selection(), Some((1, 3)));
    ed.set_cursor(0, false);
    assert_eq!(ed.selection(), None);
}

#[test]
fn to_runs_of_uniform_text_is_one_run() {
    let ed = TextEdit::with_glyphs(glyphs_of("plain"));
    let runs = ed.to_runs();
    assert_eq!(runs.len(), 1);
    assert_eq!(runs[0].text, "plain");
    assert!(TextEdit::new().to_runs().is_empty());
}

#[test]
fn toggle_turns_on_unless_all_selected_glyphs_have_it() {
    let mut ed = TextEdit::with_glyphs(glyphs_of("abc"));
    ed.glyphs[0].style.bold = true;
    ed.anchor = Some(0);
    ed.cursor = 2;
    let mut editing = Some(ed);
    let mut typing = TextStyle::default();
    toggle_style(&mut editing, &mut typing, StyleFlag::Bold);
    let ed = editing.as_ref().unwrap();
    assert!(ed.glyphs[0].style.bold && ed.glyphs[1].style.bold && !ed.glyphs[2].style.bold);
    assert!(typing.bold);
    toggle_style(&mut editing, &mut typing, StyleFlag::Bold);
    let ed = editing.as_ref().unwrap();
    assert!(!ed.glyphs[0].style.bold && !ed.glyphs[1].style.bold);
    assert!(!typing.bold);
}

#[test]
fn toggle_without_selection_flips_the_typing_style_only() {
    let mut editing: Option<TextEdit> = None;
    let mut typing = TextStyle::default();
    toggle_style(&mut editing, &mut typing, StyleFlag::Italic);
    assert!(typing.italic);
    toggle_style(&mut editing, &mut typing, StyleFlag::Italic);
    assert!(!typing.italic);
}

#[test]
fn apply_style_sets_typing_style_and_selection() {
    let mut ed = TextEdit::with_glyphs(glyphs_of("xyz"));
    ed.anchor = Some(2);
    ed.cursor = 3;
    let mut editing = Some(ed);
    let mut typing = TextStyle::default();
    apply_style(&mut editing, &mut typing, &StyleChange::Underline(true));
    assert!(typing.underline);
    let ed = editing.as_ref().unwrap();
    assert!(!ed.glyphs[1].style.underline && ed.glyphs[2].style.underline);
}

#[test]
fn runs_flatten_back_to_the_edited_glyphs() {
    let mut ed = TextEdit::with_glyphs(glyphs_of("abcdef"));
    ed.anchor = Some(2);
    ed.cursor = 4;
    ed.style_selection(&StyleChange::Italic(true));
    let ann = TextAnnotation { x: 0, y: 0, size: 16f64.to_bits(), runs: ed.to_runs() };
    let back: Vec<(char, TextStyle)> = ed.glyphs.iter().map(|g| (g.ch, g.style.clone())).collect();
    assert_eq!(ann.glyphs(), back);
    assert_eq!(ann.runs.len(), 3);
}
