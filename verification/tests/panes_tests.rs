use ce_editor::editor::{Editor, MessageKind, Mode};
use ce_editor::gutter::GutterConfig;
use ce_editor::window::Window;

fn editor_with_windows(count: usize) -> Editor {
    let mut ed = Editor::new(
        Some("a.txt".to_string()),
        Ok(Some("one\ntwo\n".to_string())),
        "/a.txt",
        vec![],
        vec![],
        GutterConfig {
            line_numbers_enabled: true,
            relative_line_numbers: false,
            git_gutter_enabled: true,
            bookmarks_enabled: true,
        },
        false,
        false,
    )
    .unwrap();
    let bid = ed.windows[0].buf_id;
    for k in 1..count {
        ed.windows.push(Window::new(k, bid));
    }
    ed
}

#[test]
fn focus_cycles_forward_and_back() {
    let mut ed = editor_with_windows(3);
    ed.focus_next_window();
    assert_eq!(ed.active_window_idx, 1);
    ed.focus_next_window();
    ed.focus_next_window();
    assert_eq!(ed.active_window_idx, 0);
    ed.focus_prev_window();
    assert_eq!(ed.active_window_idx, 2);
    ed.focus_next_window();
    assert_eq!(ed.active_window_idx, 0);
}

#[test]
fn focus_stays_with_one_window() {
    let mut ed = editor_with_windows(1);
    ed.focus_next_window();
    assert_eq!(ed.active_window_idx, 0);
    ed.focus_prev_window();
    assert_eq!(ed.active_window_idx, 0);
}

#[test]
fn only_window_keeps_the_active_one() {
    let mut ed = editor_with_windows(3);
    ed.active_window_idx = 1;
    ed.only_window();
    assert_eq!(ed.windows.len(), 1);
    assert_eq!(ed.windows[0].id, 1);
    assert_eq!(ed.active_window_idx, 0);
    assert_eq!(ed.status_msg, "Closed other windows");
}

#[test]
fn closing_a_window_focuses_its_neighbour_and_unlinks_the_diff() {
    let mut ed = editor_with_windows(3);
    ed.windows[2].diff_sibling = Some(0);
    ed.windows[0].diff_sibling = Some(2);
    ed.active_window_idx = 2;
    ed.close_window(false, &vec![Some("/a.txt".to_string())]);
    assert_eq!(ed.windows.len(), 2);
    assert_eq!(ed.active_window_idx, 1);
    assert_eq!(ed.windows[0].diff_sibling, None);
    assert_eq!(ed.status_msg, "Window closed");
    assert_eq!(ed.status_kind, MessageKind::Info);
}

#[test]
fn closing_the_last_viewer_of_a_modified_buffer_is_refused() {
    let mut ed = editor_with_windows(1);
    let first = ed.windows[0].buf_id;
    ed.open_buffer(
        Some("b.txt".to_string()),
        "/b.txt",
        Some("/b.txt".to_string()),
        &vec![Some("/a.txt".to_string())],
        &vec![Some("/a.txt".to_string())],
        Ok(Some("b\n".to_string())),
    );
    ed.windows.push(Window::new(1, first));
    let canons = vec![Some("/a.txt".to_string()), Some("/b.txt".to_string())];
    let active_buf = ed.windows[ed.active_window_idx].buf_id;
    for b in ed.buffers.iter_mut() {
        if b.id == active_buf {
            b.modified = true;
        }
    }
    ed.close_window(false, &canons);
    assert_eq!(ed.windows.len(), 2);
    assert_eq!(ed.status_msg, "No write since last change (use :q! to force)");
    assert_eq!(ed.status_kind, MessageKind::Error);
    ed.close_window(true, &canons);
    assert_eq!(ed.windows.len(), 1);
    assert_eq!(ed.windows[0].buf_id, first);
}

#[test]
fn forcing_the_last_window_closed_quits() {
    let mut ed = editor_with_windows(1);
    ed.buffers[0].modified = true;
    ed.close_window(true, &vec![Some("/a.txt".to_string())]);
    assert!(ed.should_quit);
}

#[test]
fn closing_the_only_window_asks_like_quit() {
    let mut ed = editor_with_windows(1);
    ed.buffers[0].modified = true;
    ed.close_window(false, &vec![Some("/a.txt".to_string())]);
    assert!(!ed.should_quit);
    assert_eq!(ed.status_msg, "Save changes? (y/n/c)");
}

#[test]
fn closing_the_last_clean_window_quits_even_with_other_buffers() {
    let mut ed = editor_with_windows(1);
    ed.open_buffer(
        Some("b.txt".to_string()),
        "/b.txt",
        Some("/b.txt".to_string()),
        &vec![Some("/a.txt".to_string())],
        &vec![Some("/a.txt".to_string())],
        Ok(Some("b\n".to_string())),
    );
    ed.close_window(false, &vec![Some("/a.txt".to_string()), Some("/b.txt".to_string())]);
    assert!(ed.should_quit);
    assert_eq!(ed.buffers.len(), 2);
}

#[test]
fn splitting_copies_the_cursor_and_stops_at_the_limit() {
    let mut ed = editor_with_windows(1);
    ed.windows[0].row = 1;
    ed.split_vertical();
    assert_eq!(ed.windows.len(), 2);
    assert_eq!(ed.active_window_idx, 1);
    assert_eq!(ed.windows[1].row, 1);
    assert_eq!(ed.status_msg, "Split vertically");
    for _ in 0..10 {
        ed.split_horizontal();
    }
    assert_eq!(ed.windows.len(), 8);
    assert_eq!(ed.status_msg, "Maximum number of windows reached");
}

#[test]
fn diffthis_opens_head_beside_the_file() {
    let mut ed = editor_with_windows(1);
    ed.open_diffthis(Ok(("a.txt".to_string(), "one\nTWO\n".to_string())));
    assert_eq!(ed.windows.len(), 2);
    assert_eq!(ed.buffers.len(), 2);
    let head = &ed.buffers[1];
    assert_eq!(head.filename.as_deref(), Some("git://head/a.txt"));
    assert_eq!(head.line_text(1), "TWO");
    assert_eq!(ed.active_window_idx, 0);
    assert_eq!(ed.windows[1].buf_id, head.id);
    assert_eq!(ed.windows[0].diff_sibling, Some(ed.windows[1].id));
    assert_eq!(ed.windows[1].diff_sibling, Some(ed.windows[0].id));
    let a = ed.buffers[0].diff_alignment.as_ref().unwrap();
    let b = ed.buffers[1].diff_alignment.as_ref().unwrap();
    assert_eq!(a.left, b.left);
    assert_eq!(a.left.len(), a.right.len());
    assert_eq!(ed.status_msg, "Comparing against HEAD version (a.txt)");
    ed.open_diffthis(Err("Not in a git repository".to_string()));
    assert_eq!(ed.status_msg, "Not in a git repository");
}

#[test]
fn visual_line_range_only_in_visual_modes() {
    let mut ed = editor_with_windows(1);
    ed.windows[0].visual_anchor = Some((1, 0));
    ed.mode = Mode::Normal;
    assert_eq!(ed.get_visual_line_range(), None);
    ed.mode = Mode::VisualLine;
    assert_eq!(ed.get_visual_line_range(), Some((0, 1)));
}

#[test]
fn outdent_takes_back_an_indent() {
    let mut ed = editor_with_windows(1);
    let (w, b) = (&mut ed.windows[0], &mut ed.buffers[0]);
    w.row = 1;
    w.col = 2;
    ce_editor::editing::indent_line(w, b);
    assert_eq!(b.line_text(1), "    two");
    ce_editor::editing::outdent_line(w, b);
    assert_eq!(b.line_text(1), "two");
    assert_eq!((w.row, w.col), (1, 2));
}

#[test]
fn gutter_line_is_as_wide_as_the_gutter() {
    let ed = editor_with_windows(1);
    let cfg = GutterConfig {
        line_numbers_enabled: true,
        relative_line_numbers: true,
        git_gutter_enabled: true,
        bookmarks_enabled: false,
    };
    let w = ce_editor::gutter::gutter_width(&ed.buffers[0], &cfg);
    for row in 0..ed.buffers[0].len_lines() {
        let spans = ce_editor::gutter::render_gutter_line(&ed.buffers[0], &ed.windows[0], row, &cfg);
        let total: usize = spans.iter().map(|s| s.text.chars().count()).sum();
        assert_eq!(total, w);
    }
}

#[test]
fn lines_joined_give_back_the_text() {
    let ed = editor_with_windows(1);
    let b = &ed.buffers[0];
    let lines: Vec<String> = (0..b.len_lines()).map(|i| b.line_text(i)).collect();
    assert_eq!(lines.join("\n"), b.rope.to_string());
}
