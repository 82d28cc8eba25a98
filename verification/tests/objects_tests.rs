use ce_editor::buffer::VirtualLine;
use ce_editor::diff_align::DiffAlignment;
use ce_editor::editor::{Editor, MessageKind, Mode};
use ce_editor::gutter::GutterConfig;
use ce_editor::textobj::TextObjectRange;

fn editor(filename: Option<&str>, text: Option<&str>) -> Editor {
    let g = GutterConfig {
        line_numbers_enabled: true,
        relative_line_numbers: false,
        git_gutter_enabled: true,
        bookmarks_enabled: true,
    };
    Editor::new(filename.map(|s| s.to_string()), Ok(text.map(|s| s.to_string())), "", vec![], vec![], g, false, false)
        .unwrap()
}

#[test]
fn delete_inner_word() {
    let mut ed = editor(Some("w.txt"), Some("foo bar_baz  qux\n"));
    ed.windows[0].col = 6;
    ed.edit_text_object(TextObjectRange::Word, true, false);
    assert_eq!(ed.line_text(0), "foo   qux");
    assert_eq!(ed.active_col(), 4);
    assert_eq!(ed.mode(), Mode::Normal);
}

#[test]
fn change_a_word_takes_the_blanks_after_it() {
    let mut ed = editor(Some("w.txt"), Some("foo bar_baz  qux\n"));
    ed.windows[0].col = 4;
    ed.edit_text_object(TextObjectRange::Word, false, true);
    assert_eq!(ed.line_text(0), "foo qux");
    assert_eq!(ed.mode(), Mode::Insert);
}

#[test]
fn word_object_on_blanks_and_punctuation() {
    let mut ed = editor(Some("w.txt"), Some("a   b==c\n"));
    ed.windows[0].col = 2;
    ed.edit_text_object(TextObjectRange::Word, false, false);
    assert_eq!(ed.line_text(0), "ab==c");
    ed.windows[0].col = 2;
    ed.edit_text_object(TextObjectRange::Word, true, false);
    assert_eq!(ed.line_text(0), "abc");
}

#[test]
fn word_object_on_an_empty_line() {
    let mut ed = editor(Some("w.txt"), Some("\n"));
    ed.edit_text_object(TextObjectRange::Word, true, false);
    assert_eq!(ed.status_msg(), "No text object found");
    assert_eq!(ed.status_kind(), MessageKind::Error);
}

#[test]
fn span_objects_delete_the_range() {
    let mut ed = editor(Some("s.rs"), Some("f(a, b)\nx\n"));
    ed.edit_text_object(TextObjectRange::Span(0, 2, 0, 6), true, false);
    assert_eq!(ed.line_text(0), "f()");
    assert_eq!((ed.active_row(), ed.active_col()), (0, 2));
    ed.edit_text_object(TextObjectRange::Span(0, 2, 9, 0), true, false);
    assert_eq!(ed.status_msg(), "Invalid text object range");
    ed.edit_text_object(TextObjectRange::NotFound, true, false);
    assert_eq!(ed.status_msg(), "No text object found");
}

fn three_buffers() -> (Editor, Vec<Option<String>>) {
    let mut ed = editor(Some("main.rs"), Some("m\n"));
    let mut canons = vec![Some("/p/main.rs".to_string())];
    for name in ["lib.rs", "Makefile"] {
        let keys = canons.clone();
        ed.open_buffer(
            Some(name.to_string()),
            &format!("/p/{}", name),
            Some(format!("/p/{}", name)),
            &keys,
            &canons,
            Ok(Some("x\n".to_string())),
        );
        canons.push(Some(format!("/p/{}", name)));
    }
    (ed, canons)
}

#[test]
fn switch_by_number_name_or_part() {
    let (mut ed, canons) = three_buffers();
    ed.switch_buffer_by_name_or_index(" 1 ", &canons);
    assert_eq!(ed.active_filename(), Some("main.rs"));
    assert_eq!(ed.status_msg(), "Switched to buffer 1 (main.rs)");
    ed.switch_buffer_by_name_or_index("lib.rs", &canons);
    assert_eq!(ed.active_filename(), Some("lib.rs"));
    assert_eq!(ed.status_msg(), "Switched to buffer (lib.rs)");
    ed.switch_buffer_by_name_or_index("MAKE", &canons);
    assert_eq!(ed.active_filename(), Some("Makefile"));
    ed.switch_buffer_by_name_or_index(".rs", &canons);
    assert_eq!(ed.active_filename(), Some("main.rs"));
    ed.switch_buffer_by_name_or_index("nope", &canons);
    assert_eq!(ed.status_msg(), "No buffer matching 'nope'");
    ed.switch_buffer_by_name_or_index("   ", &canons);
    assert_eq!(ed.status_msg(), "Usage: :b <index_or_name>");
}

#[test]
fn switch_by_index_checks_the_range() {
    let (mut ed, canons) = three_buffers();
    ed.switch_buffer_by_index(2, &canons);
    assert_eq!(ed.active_filename(), Some("lib.rs"));
    assert_eq!(ed.status_msg(), "Switched to buffer 2 (lib.rs)");
    ed.switch_buffer_by_index(0, &canons);
    assert_eq!(ed.status_msg(), "Invalid buffer number: 0");
    ed.switch_buffer_by_index(4, &canons);
    assert_eq!(ed.status_msg(), "Invalid buffer number: 4");
}

#[test]
fn buffer_list_marks_the_active_and_modified() {
    let (mut ed, _) = three_buffers();
    ed.buffers[0].modified = true;
    ed.list_buffers();
    assert_eq!(ed.status_msg(), "Buffers:\n     1 main.rs [+]\n     2 lib.rs\n   % 3 Makefile");
}

#[test]
fn diff_sibling_follows_the_active_window() {
    let mut ed = editor(Some("a.txt"), Some("a\nB1\nB2\nc\n"));
    let head = ed.buffers.len();
    ed.open_buffer(
        Some("git://head/a.txt".to_string()),
        "git://head/a.txt",
        None,
        &vec![None],
        &vec![Some("/a.txt".to_string())],
        Ok(Some("a\nb\nc\n".to_string())),
    );
    assert_eq!(ed.buffers.len(), head + 1);
    let mut w2 = ed.windows[0];
    w2.id = 1;
    ed.windows[0].buf_id = 0;
    ed.windows.push(w2);
    ed.windows[0].diff_sibling = Some(1);
    ed.windows[1].diff_sibling = Some(0);
    ed.buffers[0].diff_alignment = Some(DiffAlignment {
        left: vec![VirtualLine::Real(0), VirtualLine::Real(1), VirtualLine::Padding, VirtualLine::Real(2), VirtualLine::Real(3)],
        right: vec![VirtualLine::Real(0), VirtualLine::Real(1), VirtualLine::Real(2), VirtualLine::Real(3), VirtualLine::Real(4)],
    });
    ed.active_window_idx = 0;
    ed.windows[0].row = 2;
    ed.windows[0].scroll_line = 1;
    ed.sync_diff_windows();
    assert_eq!(ed.windows[1].row, 2);
    assert_eq!(ed.windows[1].scroll_line, 1);
    ed.windows[0].row = 3;
    ed.sync_diff_windows();
    assert_eq!(ed.windows[1].row, 2);
}
