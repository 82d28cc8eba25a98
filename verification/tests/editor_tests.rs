use ce_editor::buffer::GitSign;
use ce_editor::editor::{Editor, MessageKind, Mode, PendingLspGoto, PositionInfo, VisualBlockInsertState};
use ce_editor::gutter::GutterConfig;

fn gutter() -> GutterConfig {
    GutterConfig {
        line_numbers_enabled: true,
        relative_line_numbers: false,
        git_gutter_enabled: true,
        bookmarks_enabled: true,
    }
}

fn editor(filename: Option<&str>, text: Option<&str>) -> Editor {
    Editor::new(
        filename.map(|s| s.to_string()),
        Ok(text.map(|s| s.to_string())),
        "",
        vec![],
        vec![],
        gutter(),
        false,
        false,
    )
    .unwrap()
}

#[test]
fn new_editor_on_no_file_has_one_empty_line() {
    let ed = editor(None, None);
    assert_eq!(ed.buffer_count(), 1);
    assert_eq!(ed.line_count(), 2);
    assert_eq!(ed.line_text(0), "");
    assert_eq!(ed.mode(), Mode::Normal);
    assert_eq!(ed.status_msg(), "");
    assert!(ed.active_filename().is_none());
}

#[test]
fn new_editor_shows_the_startup_hint() {
    let ed = Editor::new(None, Ok(None), "", vec![], vec![], gutter(), false, true).unwrap();
    assert_eq!(ed.status_msg(), "Type i to insert mode, gi to brief mode, :q to quit, :e <path> to open another file");
    let b = Editor::new(None, Ok(None), "", vec![], vec![], gutter(), true, true).unwrap();
    assert_eq!(b.mode(), Mode::Brief);
    assert_eq!(b.status_msg(), "Brief mode | F9 for :commands, :vim to vim mode");
    let quiet = Editor::new(None, Ok(None), "", vec![], vec![], gutter(), true, false).unwrap();
    assert_eq!(quiet.status_msg(), "Brief mode \u{2014} F9 :vim to switch back");
}

#[test]
fn new_editor_fails_when_the_file_cannot_be_read() {
    let r = Editor::new(Some("x".to_string()), Err("denied".to_string()), "", vec![], vec![], gutter(), false, false);
    assert_eq!(r.err(), Some("denied".to_string()));
}

#[test]
fn new_editor_restores_the_saved_position_inside_the_text() {
    let positions = vec![
        PositionInfo { path: "/p/other.txt".to_string(), row: 1, col: 1 },
        PositionInfo { path: "/p/a.txt".to_string(), row: 5, col: 3 },
    ];
    let ed = Editor::new(
        Some("a.txt".to_string()),
        Ok(Some("l0\nl1\n".to_string())),
        "/p/a.txt",
        vec![],
        positions,
        gutter(),
        false,
        false,
    )
    .unwrap();
    assert_eq!(ed.active_row(), 2);
    assert_eq!(ed.active_col(), 0);
    assert_eq!(ed.active_filename(), Some("a.txt"));
}

#[test]
fn position_read_back_after_update() {
    let mut ed = editor(None, None);
    ed.update_position_silent("/x", 4, 2);
    ed.update_position_silent("/y", 1, 1);
    ed.update_position_silent("/x", 7, 0);
    assert_eq!(ed.get_saved_position("/x"), Some((7, 0)));
    assert_eq!(ed.get_saved_position("/y"), Some((1, 1)));
    assert_eq!(ed.get_saved_position("/z"), None);
    assert_eq!(ed.positions.iter().filter(|p| p.path == "/x").count(), 1);
}

#[test]
fn bookmarks_and_ping_pong_jumps() {
    let mut ed = editor(Some("f.txt"), Some("zero\none\ntwo\n"));
    ed.windows[0].row = 1;
    ed.windows[0].col = 2;
    ed.set_named_bookmark('a');
    assert_eq!(ed.status_msg(), "Mark 'a' set at line 2");
    ed.windows[0].row = 0;
    ed.windows[0].col = 0;
    ed.goto_named_bookmark('a');
    assert_eq!((ed.active_row(), ed.active_col()), (1, 2));
    ed.jump_last_position();
    assert_eq!((ed.active_row(), ed.active_col()), (0, 0));
    ed.jump_last_position();
    assert_eq!((ed.active_row(), ed.active_col()), (1, 2));
    assert!(ed.delete_named_bookmark('a'));
    assert!(!ed.delete_named_bookmark('a'));
}

#[test]
fn jump_back_without_a_previous_jump() {
    let mut ed = editor(None, None);
    ed.jump_last_position();
    assert_eq!(ed.status_msg(), "No previous jump position");
}

fn hunk_editor() -> Editor {
    let mut ed = editor(Some("h.txt"), Some("0\n1\n2\n3\n4\n5\n6\n"));
    ed.buffers[0].git_diffs.insert(1, GitSign::Added);
    ed.buffers[0].git_diffs.insert(2, GitSign::Modified);
    ed.buffers[0].git_diffs.insert(5, GitSign::Removed);
    ed
}

#[test]
fn next_hunk_goes_down_and_wraps() {
    let mut ed = hunk_editor();
    ed.jump_to_next_hunk();
    assert_eq!(ed.active_row(), 1);
    assert_eq!(ed.status_msg(), "Jumped to hunk at line 2");
    ed.jump_to_next_hunk();
    assert_eq!(ed.active_row(), 5);
    ed.jump_to_next_hunk();
    assert_eq!(ed.active_row(), 1);
}

#[test]
fn prev_hunk_goes_up_and_wraps() {
    let mut ed = hunk_editor();
    ed.jump_to_prev_hunk();
    assert_eq!(ed.active_row(), 5);
    ed.jump_to_prev_hunk();
    assert_eq!(ed.active_row(), 1);
    ed.windows[0].row = 2;
    ed.jump_to_prev_hunk();
    assert_eq!(ed.active_row(), 1);
}

#[test]
fn no_hunks_to_jump_to() {
    let mut ed = editor(None, None);
    ed.jump_to_next_hunk();
    assert_eq!(ed.status_msg(), "No git hunks found");
    assert_eq!(ed.status_kind(), MessageKind::Info);
}

#[test]
fn cursor_on_hunk_and_diff_stats() {
    let mut ed = hunk_editor();
    assert_eq!(ed.git_diff_stats(), (1, 1, 1));
    assert!(ed.cursor_on_hunk(2));
    assert!(!ed.cursor_on_hunk(3));
    assert_eq!(ed.status_msg(), "Cursor is not on a git hunk");
    assert_eq!(ed.status_kind(), MessageKind::Error);
}

fn changed_editor() -> Editor {
    let mut ed = editor(Some("a.txt"), Some("a\nB\nc\n"));
    ed.buffers[0].git_diffs.insert(1, GitSign::Modified);
    ed.windows[0].row = 1;
    ed
}

fn head() -> Result<(String, String), String> {
    Ok(("a.txt".to_string(), "a\nb\nc\n".to_string()))
}

#[test]
fn revert_hunk_restores_the_head_lines() {
    let mut ed = changed_editor();
    ed.revert_hunk(head());
    assert_eq!(ed.status_msg(), "Reverted hunk");
    assert_eq!(ed.line_text(1), "b");
    assert_eq!(ed.line_count(), 4);
    assert_eq!(ed.active_row(), 0);
    assert!(ed.active_modified());
    ed.buffers[0].pop_undo(0, 0).unwrap();
}

#[test]
fn revert_hunk_reports_why_it_cannot() {
    let mut ed = changed_editor();
    ed.revert_hunk(Err("Not in a git repository".to_string()));
    assert_eq!(ed.status_msg(), "Not in a git repository");
    assert_eq!(ed.line_text(1), "B");
    let mut unnamed = editor(None, None);
    unnamed.revert_hunk(head());
    assert_eq!(unnamed.status_msg(), "No file associated with buffer");
}

#[test]
fn hunk_popup_shows_the_unified_diff() {
    let mut ed = changed_editor();
    let lines = ed.open_hunk_popup(head()).unwrap();
    assert_eq!(lines, vec!["@@ -1,3 +1,3 @@", " a", "-b", "+B", " c"]);
    ed.yank_hunk_added_lines(&lines);
    assert_eq!(ed.clipboard.as_deref(), Some("B\n"));
    assert_eq!(ed.status_msg(), "Yanked 1 added/modified line(s)");
    ed.yank_hunk_deleted_lines(&lines);
    assert_eq!(ed.clipboard.as_deref(), Some("b\n"));
    assert_eq!(ed.status_msg(), "Yanked 1 deleted line(s)");
    let ctx = vec![" a".to_string()];
    ed.yank_hunk_added_lines(&ctx);
    assert_eq!(ed.status_msg(), "No added/modified lines to yank");
    assert_eq!(ed.clipboard.as_deref(), Some("b\n"));
}

#[test]
fn block_insert_repeats_the_text_on_the_other_rows() {
    let mut ed = editor(Some("b.txt"), Some("ab\nx\n\n"));
    ed.visual_block_insert_state = Some(VisualBlockInsertState { rows: vec![0, 1, 2], col: 1 });
    ed.windows[0].visual_anchor = Some((0, 1));
    ed.finalize_visual_block_insert(Some("ZZ".to_string()));
    assert_eq!(ed.line_text(0), "ab");
    assert_eq!(ed.line_text(1), "xZZ");
    assert_eq!(ed.line_text(2), " ZZ");
    assert!(ed.windows[0].visual_anchor.is_none());
    assert!(ed.visual_block_insert_state.is_none());
}

#[test]
fn block_insert_without_text_only_clears() {
    let mut ed = editor(Some("b.txt"), Some("ab\nx\n"));
    ed.visual_block_insert_state = Some(VisualBlockInsertState { rows: vec![0, 1], col: 0 });
    ed.finalize_visual_block_insert(Some(String::new()));
    assert_eq!(ed.line_text(1), "x");
    assert!(!ed.active_modified());
}

#[test]
fn refine_jump_finds_the_symbol_nearby() {
    let mut ed = editor(Some("r.rs"), Some("fn foo() {}\nlet foo_bar = 1;\nfoo();\n"));
    ed.refine_jump_position("foo", 1, 0);
    assert_eq!((ed.active_row(), ed.active_col()), (0, 3));
    let mut on = editor(Some("r.rs"), Some("let foo_bar = 1;\n"));
    on.refine_jump_position("foo", 0, 4);
    assert_eq!((on.active_row(), on.active_col()), (0, 0));
    let mut sub = editor(Some("r.rs"), Some("let foo_bar = 1;\n"));
    sub.refine_jump_position("bar", 0, 0);
    assert_eq!((sub.active_row(), sub.active_col()), (0, 8));
}

#[test]
fn opening_a_file_replaces_the_untouched_unnamed_buffer() {
    let mut ed = editor(None, None);
    ed.open_buffer(
        Some("b.txt".to_string()),
        "/abs/b.txt",
        Some("/abs/b.txt".to_string()),
        &vec![None],
        &vec![None],
        Ok(Some("hello\n".to_string())),
    );
    assert_eq!(ed.buffer_count(), 1);
    assert_eq!(ed.active_filename(), Some("b.txt"));
    assert_eq!(ed.line_text(0), "hello");
    ed.open_buffer(
        Some("b.txt".to_string()),
        "/abs/b.txt",
        Some("/abs/b.txt".to_string()),
        &vec![Some("/abs/b.txt".to_string())],
        &vec![Some("/abs/b.txt".to_string())],
        Ok(None),
    );
    assert_eq!(ed.buffer_count(), 1);
    assert_eq!(ed.get_saved_position("/abs/b.txt"), Some((0, 0)));
}

#[test]
fn opening_a_second_file_keeps_the_first_and_restores_positions() {
    let mut ed = editor(Some("a.txt"), Some("a0\na1\na2\n"));
    ed.windows[0].row = 2;
    ed.open_buffer(
        Some("b.txt".to_string()),
        "/abs/b.txt",
        Some("/abs/b.txt".to_string()),
        &vec![Some("/abs/a.txt".to_string())],
        &vec![Some("/abs/a.txt".to_string())],
        Ok(None),
    );
    assert_eq!(ed.buffer_count(), 2);
    assert_eq!(ed.active_row(), 0);
    ed.open_buffer(
        Some("a.txt".to_string()),
        "/abs/a.txt",
        Some("/abs/a.txt".to_string()),
        &vec![Some("/abs/a.txt".to_string()), Some("/abs/b.txt".to_string())],
        &vec![Some("/abs/a.txt".to_string()), Some("/abs/b.txt".to_string())],
        Ok(None),
    );
    assert_eq!(ed.active_filename(), Some("a.txt"));
    assert_eq!(ed.active_row(), 2);
}

#[test]
fn opening_an_unreadable_file_says_why() {
    let mut ed = editor(None, None);
    ed.open_buffer(Some("c.txt".to_string()), "/c.txt", Some("/c.txt".to_string()), &vec![None], &vec![None], Err("denied".to_string()));
    assert_eq!(ed.status_msg(), "Failed to open: denied");
    assert_eq!(ed.buffer_count(), 1);
}

#[test]
fn lsp_goto_times_out() {
    let mut ed = editor(None, None);
    ed.pending_lsp_goto = Some(PendingLspGoto { symbol: "foo".to_string(), pushed_tag_stack: true, created_at_ms: 100 });
    assert!(ed.check_lsp_goto_timeout(150, 100).is_none());
    let p = ed.check_lsp_goto_timeout(300, 100).unwrap();
    assert!(p.pushed_tag_stack);
    assert_eq!(ed.status_msg(), "LSP timeout \u{2014} falling back for 'foo'");
    assert!(ed.pending_lsp_goto.is_none());
    let q = PendingLspGoto { symbol: String::new(), pushed_tag_stack: false, created_at_ms: 500 };
    assert!(!q.timed_out(100, 10));
}

#[test]
fn command_history_walks_back_and_forth() {
    let mut ed = editor(None, None);
    assert!(ed.append_history("  ls  "));
    assert!(ed.append_history("pwd"));
    assert!(!ed.append_history("pwd"));
    assert!(!ed.append_history("   "));
    assert_eq!(ed.cmd_history, vec!["ls", "pwd"]);
    ed.history_prev();
    assert_eq!(ed.command(), "pwd");
    ed.history_prev();
    assert_eq!(ed.command(), "ls");
    ed.history_next();
    assert_eq!(ed.command(), "pwd");
}

#[test]
fn location_parsing_through_the_editor() {
    let ed = editor(None, None);
    let d = ed.parse_location_from_line("x.rs:2:3: error: e").unwrap();
    assert_eq!((d.line_number, d.column), (2, 3));
}
