use ce_editor::editor::{Editor, Key, MessageKind, Mode, PendingGitAction, PendingInput};
use ce_editor::gutter::GutterConfig;

fn editor(text: &str) -> Editor {
    let g = GutterConfig {
        line_numbers_enabled: false,
        relative_line_numbers: false,
        git_gutter_enabled: false,
        bookmarks_enabled: false,
    };
    Editor::new(Some("p.txt".to_string()), Ok(Some(text.to_string())), "", vec![], vec![], g, false, false).unwrap()
}

#[test]
fn trigger_prefix_is_the_fragment_after_the_last_trigger() {
    assert_eq!(Editor::post_trigger_prefix("person.ag"), "ag");
    assert_eq!(Editor::post_trigger_prefix("person."), "");
    assert_eq!(Editor::post_trigger_prefix("hello"), "hello");
    assert_eq!(Editor::post_trigger_prefix("a::b.c->de"), "de");
    assert_eq!(Editor::post_trigger_prefix("x.y::z"), "z");
}

#[test]
fn triggers_are_recognised() {
    assert!(Editor::has_completion_trigger("std::"));
    assert!(Editor::has_completion_trigger("p->"));
    assert!(Editor::has_completion_trigger("a.b"));
    assert!(!Editor::has_completion_trigger("abc"));
    assert!(Editor::is_exact_trigger("::"));
    assert!(Editor::is_exact_trigger("."));
    assert!(!Editor::is_exact_trigger("a."));
}

#[test]
fn snippet_placeholders_are_removed() {
    assert_eq!(Editor::strip_lsp_snippets("foo($1, ${2:bar})$0"), "foo(, )");
    assert_eq!(Editor::strip_lsp_snippets("plain"), "plain");
    assert_eq!(Editor::strip_lsp_snippets("a$"), "a");
    assert_eq!(Editor::strip_lsp_snippets("x${unclosed"), "x");
}

#[test]
fn common_prefix_counts_chars() {
    assert_eq!(Editor::common_prefix_len("abcd", "abxy"), 2);
    assert_eq!(Editor::common_prefix_len("\u{e9}t\u{e9}", "\u{e9}t"), 2);
    assert_eq!(Editor::common_prefix_len("", "a"), 0);
}

#[test]
fn bookmark_prompt_sets_and_jumps() {
    let mut ed = editor("a\nb\nc\n");
    ed.windows[0].row = 2;
    ed.pending_input = PendingInput::SetBookmark;
    assert!(ed.handle_pending_input_key(Key::Char('x')));
    assert_eq!(ed.pending_input, PendingInput::Idle);
    assert_eq!(ed.status_msg(), "Mark 'x' set at line 3");
    ed.windows[0].row = 0;
    ed.pending_input = PendingInput::GotoBookmark;
    assert!(ed.handle_pending_input_key(Key::Char('x')));
    assert_eq!(ed.active_row(), 2);
    ed.pending_input = PendingInput::GotoBookmark;
    assert!(ed.handle_pending_input_key(Key::Char('`')));
    assert_eq!(ed.active_row(), 0);
    ed.pending_input = PendingInput::GotoBookmark;
    assert!(ed.handle_pending_input_key(Key::Char('q')));
    assert_eq!(ed.status_msg(), "Mark 'q' not set");
    assert_eq!(ed.status_kind(), MessageKind::Error);
}

#[test]
fn bookmark_prompt_cancels_and_ignores_other_modes() {
    let mut ed = editor("a\n");
    ed.pending_input = PendingInput::SetBookmark;
    ed.set_status("m", MessageKind::Info);
    assert!(ed.handle_pending_input_key(Key::Esc));
    assert_eq!(ed.pending_input, PendingInput::Idle);
    assert_eq!(ed.status_msg(), "");
    assert!(!ed.handle_pending_input_key(Key::Char('a')));
    ed.pending_input = PendingInput::SetBookmark;
    ed.enter_insert();
    assert_eq!(ed.mode(), Mode::Insert);
}

#[test]
fn git_action_prompt_confirms_or_cancels() {
    let mut ed = editor("a\n");
    ed.pending_git_action = PendingGitAction::SwitchBranch("dev".to_string());
    assert_eq!(ed.handle_git_action_prompt_key(Key::Char('x'), true), PendingGitAction::Idle);
    assert_eq!(ed.pending_git_action, PendingGitAction::SwitchBranch("dev".to_string()));
    let a = ed.handle_git_action_prompt_key(Key::Char('y'), true);
    assert_eq!(a, PendingGitAction::SwitchBranch("dev".to_string()));
    assert_eq!(ed.pending_git_action, PendingGitAction::Idle);
    ed.pending_git_action = PendingGitAction::PopStash("stash@{0}".to_string());
    assert_eq!(ed.handle_git_action_prompt_key(Key::Char('Y'), false), PendingGitAction::Idle);
    assert_eq!(ed.status_msg(), "Not in a git repository");
    ed.pending_git_action = PendingGitAction::PopStash("stash@{0}".to_string());
    ed.handle_git_action_prompt_key(Key::Esc, true);
    assert_eq!(ed.status_msg(), "Action cancelled");
    assert_eq!(ed.pending_git_action, PendingGitAction::Idle);
}

#[test]
fn word_yank_reports_where_it_went() {
    let mut ed = editor("let foo = 1;\n");
    ed.windows[0].col = 5;
    ed.yank_word_to_system_clipboard(true);
    assert_eq!(ed.clipboard.as_deref(), Some("foo"));
    assert_eq!(ed.status_msg(), "Yanked word 'foo' \u{2192} system clipboard");
    assert_eq!(ed.status_kind(), MessageKind::Success);
    ed.yank_word_to_system_clipboard(false);
    assert_eq!(ed.status_msg(), "Yanked word internally (system clipboard unavailable)");
    let mut blank = editor("\n");
    blank.yank_word_to_system_clipboard(true);
    assert_eq!(blank.status_msg(), "No word under cursor");
    assert!(blank.clipboard.is_none());
}

#[test]
fn rows_are_clamped_to_the_buffer() {
    let mut ed = editor("a\nb\n");
    ed.windows[0].row = 9;
    ed.windows[0].col = 4;
    ed.clamp_window_row_to_buf(0);
    assert_eq!((ed.active_row(), ed.active_col()), (2, 0));
    ed.windows[0].row = 1;
    ed.windows[0].col = 1;
    ed.clamp_window_row_to_buf(0);
    assert_eq!((ed.active_row(), ed.active_col()), (1, 1));
}

#[test]
fn viewport_helpers() {
    let mut ed = editor("a\nb\n");
    assert_eq!(ed.active_virtual_line_count(), 3);
    ed.windows[0].height = 10;
    assert_eq!(ed.effective_scroll_offset(3), 3);
    assert_eq!(ed.effective_scroll_offset(8), 5);
    assert_eq!(ed.effective_scroll_offset(0), 0);
}

#[test]
fn health_buffer_closes_on_q() {
    let mut ed = editor("a\n");
    let canons = vec![Some("/p.txt".to_string())];
    assert!(!ed.handle_checkhealth_key(Key::Char('j'), &canons));
    assert!(!ed.should_quit());
    assert!(ed.handle_checkhealth_key(Key::Char('q'), &canons));
    assert_eq!(ed.status_msg(), "Cannot close the last remaining buffer");
}

#[test]
fn paste_inline_moves_past_the_text() {
    let mut ed = editor("ab\n");
    ed.windows[0].col = 1;
    ed.handle_paste("XY");
    assert_eq!(ed.line_text(0), "aXYb");
    assert_eq!((ed.active_row(), ed.active_col()), (0, 3));
    assert!(ed.active_modified());
    ed.handle_paste("A\nB");
    assert_eq!(ed.line_text(0), "aXYA");
    assert_eq!(ed.line_text(1), "Bb");
    assert_eq!((ed.active_row(), ed.active_col()), (1, 1));
}

#[test]
fn paste_of_whole_lines_goes_below() {
    let mut ed = editor("ab\ncd\n");
    ed.handle_paste("l1\nl2\n");
    assert_eq!(ed.line_text(0), "ab");
    assert_eq!(ed.line_text(1), "l1");
    assert_eq!(ed.line_text(2), "l2");
    assert_eq!(ed.line_text(3), "cd");
    assert_eq!((ed.active_row(), ed.active_col()), (2, 0));
}

#[test]
fn paste_into_the_command_line_and_nothing() {
    let mut ed = editor("ab\n");
    ed.enter_command();
    ed.push_command('a');
    ed.push_command('b');
    ed.command_cursor = 1;
    ed.handle_paste("xy");
    assert_eq!(ed.command(), "axyb");
    assert_eq!(ed.command_cursor, 3);
    ed.handle_paste("");
    assert_eq!(ed.command(), "axyb");
}
