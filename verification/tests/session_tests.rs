use ce_editor::buffer::VirtualLine;
use ce_editor::diff_align::{DiffAlignment, PatchHunk};
use ce_editor::editing::{backspace, delete_current_line, insert_char, insert_newline};
use ce_editor::editor::{Editor, MessageKind};
use ce_editor::gutter::{gutter_width, render_gutter_line, GutterConfig, GutterStyle};

fn gutter() -> GutterConfig {
    GutterConfig {
        line_numbers_enabled: true,
        relative_line_numbers: false,
        git_gutter_enabled: true,
        bookmarks_enabled: true,
    }
}

fn editor(filename: Option<&str>, text: Option<&str>) -> Editor {
    Editor::new(
        filename.map(|s| s.to_string()),
        Ok(text.map(|s| s.to_string())),
        "",
        vec![],
        vec![],
        gutter(),
        false,
        false,
    )
    .unwrap()
}

fn two_buffers() -> (Editor, Vec<Option<String>>) {
    let mut ed = editor(Some("a.txt"), Some("a\n"));
    ed.open_buffer(
        Some("b.txt".to_string()),
        "/b.txt",
        Some("/b.txt".to_string()),
        &vec![Some("/a.txt".to_string())],
        &vec![Some("/a.txt".to_string())],
        Ok(Some("b\n".to_string())),
    );
    (ed, vec![Some("/a.txt".to_string()), Some("/b.txt".to_string())])
}

#[test]
fn cycling_buffers_names_them() {
    let (mut ed, canons) = two_buffers();
    assert_eq!(ed.active_filename(), Some("b.txt"));
    ed.switch_next_buffer(&canons);
    assert_eq!(ed.active_filename(), Some("a.txt"));
    assert_eq!(ed.status_msg(), "[1/2] a.txt");
    ed.switch_prev_buffer(&canons);
    assert_eq!(ed.active_filename(), Some("b.txt"));
    assert_eq!(ed.status_msg(), "[2/2] b.txt");
}

#[test]
fn cycling_a_single_buffer_says_so() {
    let mut ed = editor(None, None);
    ed.switch_next_buffer(&vec![None]);
    assert_eq!(ed.status_msg(), "Only one buffer");
}

#[test]
fn quitting_a_clean_editor_quits() {
    let mut ed = editor(Some("a.txt"), Some("a\n"));
    ed.quit_check(&vec![Some("/a.txt".to_string())]);
    assert!(ed.should_quit());
    assert_eq!(ed.get_saved_position("/a.txt"), Some((0, 0)));
}

#[test]
fn quitting_a_modified_buffer_asks_first() {
    let mut ed = editor(Some("a.txt"), Some("a\n"));
    ed.buffers[0].modified = true;
    ed.quit_check(&vec![Some("/a.txt".to_string())]);
    assert!(!ed.should_quit());
    assert_eq!(ed.status_msg(), "Save changes? (y/n/c)");
    assert_eq!(ed.status_kind(), MessageKind::Error);
}

#[test]
fn quitting_one_of_two_buffers_closes_it() {
    let (mut ed, canons) = two_buffers();
    ed.quit_check(&canons);
    assert!(!ed.should_quit());
    assert_eq!(ed.buffer_count(), 1);
    assert_eq!(ed.active_filename(), Some("a.txt"));
}

#[test]
fn substitution_over_the_whole_file_counts() {
    let mut ed = editor(Some("s.txt"), Some("a a\nb a\n"));
    ed.execute_substitution_all("a", "x", true, 0, 3);
    assert_eq!(ed.line_text(0), "x x");
    assert_eq!(ed.line_text(1), "b x");
    assert_eq!(ed.status_msg(), "3 substitutions");
    assert_eq!(ed.status_kind(), MessageKind::Success);
    ed.execute_substitution_all("zzz", "y", true, 0, 3);
    assert_eq!(ed.status_msg(), "Pattern not found");
}

#[test]
fn substitution_without_g_takes_the_first_per_line() {
    let mut ed = editor(Some("s.txt"), Some("a a\nb a\n"));
    ed.execute_substitution_all("a", "x", false, 0, 3);
    assert_eq!(ed.line_text(0), "x a");
    assert_eq!(ed.line_text(1), "b x");
    assert_eq!(ed.status_msg(), "2 substitutions");
}

#[test]
fn gutter_width_and_line_numbers() {
    let ed = editor(Some("g.txt"), Some("0\n1\n2\n3\n4\n5\n6\n7\n8\n9\n10\n"));
    let b = &ed.buffers[0];
    let w = &ed.windows[0];
    assert_eq!(gutter_width(b, &gutter()), 4);
    let spans = render_gutter_line(b, w, 3, &gutter());
    assert_eq!(spans.len(), 3);
    assert_eq!(spans[0].text, " ");
    assert_eq!(spans[1].text, " 4");
    assert_eq!(spans[1].style, GutterStyle::Number);
    assert_eq!(spans[2].text, " ");
    let cur = render_gutter_line(b, w, 0, &gutter());
    assert_eq!(cur[1].text, " 1");
    assert_eq!(cur[1].style, GutterStyle::CursorNumber);
    let rel = GutterConfig { relative_line_numbers: true, ..gutter() };
    let r = render_gutter_line(b, w, 3, &rel);
    assert_eq!(r[1].text, " 3");
}

#[test]
fn typing_and_deleting() {
    let mut ed = editor(Some("e.txt"), Some("ab\n"));
    let (w, b) = (&mut ed.windows[0], &mut ed.buffers[0]);
    insert_char(w, b, 'x');
    assert_eq!(b.line_text(0), "xab");
    assert_eq!(w.col, 1);
    backspace(w, b);
    assert_eq!(b.line_text(0), "ab");
    assert_eq!(w.col, 0);
    w.col = 1;
    insert_newline(w, b);
    assert_eq!(b.line_text(0), "a");
    assert_eq!(b.line_text(1), "b");
    assert_eq!((w.row, w.col), (1, 0));
    delete_current_line(w, b);
    assert_eq!(b.line_text(0), "a");
    assert!(b.modified);
}

fn reals(v: &[VirtualLine]) -> Vec<usize> {
    v.iter()
        .filter_map(|l| match l {
            VirtualLine::Real(r) => Some(*r),
            VirtualLine::Padding => None,
        })
        .collect()
}

#[test]
fn alignment_pairs_rows_and_keeps_every_line() {
    let h = PatchHunk {
        old_start: 2,
        old_lines: 1,
        new_start: 2,
        new_lines: 2,
        origins: vec!['-', '+', '+'],
        contents: vec!["b".to_string(), "B1".to_string(), "B2".to_string()],
    };
    let a = DiffAlignment::from_hunks(&vec![h], 3, 4);
    assert_eq!(a.left.len(), a.right.len());
    assert_eq!(a.len(), a.left.len());
    for i in 0..a.left.len() {
        assert!(!(a.left[i] == VirtualLine::Padding && a.right[i] == VirtualLine::Padding));
    }
    let l = reals(&a.left);
    let r = reals(&a.right);
    assert!(l.len() >= 3 && r.len() >= 4);
    assert_eq!(l, (0..l.len()).collect::<Vec<_>>());
    assert_eq!(r, (0..r.len()).collect::<Vec<_>>());
    assert_eq!(DiffAlignment::virtual_row_for_real(&a.left, 0), Some(0));
}

#[test]
fn backspace_takes_back_a_typed_char() {
    let mut ed = editor(Some("e.txt"), Some("héllo\nzz\n"));
    let (w, b) = (&mut ed.windows[0], &mut ed.buffers[0]);
    w.col = 3;
    insert_char(w, b, 'Q');
    assert_eq!(b.line_text(0), "hélQlo");
    backspace(w, b);
    assert_eq!(b.line_text(0), "héllo");
    assert_eq!(b.line_text(1), "zz");
    assert_eq!((w.row, w.col), (0, 3));
}

#[test]
fn backspace_after_a_combining_mark_takes_its_base_too() {
    let mut ed = editor(Some("e.txt"), Some("ae\n"));
    let (w, b) = (&mut ed.windows[0], &mut ed.buffers[0]);
    w.col = 2;
    insert_char(w, b, '\u{301}');
    assert_eq!(b.line_text(0), "ae\u{301}");
    backspace(w, b);
    assert_eq!(b.line_text(0), "a");
    assert_eq!(w.col, 1);
}

#[test]
fn patch_hunks_are_read_and_aligned() {
    let old = "a\nb\nc\n";
    let new = "a\nB1\nB2\nc\n";
    let patch = git2::Patch::from_buffers(old.as_bytes(), None, new.as_bytes(), None, None).unwrap();
    let hs = ce_editor::patch::collect_patch_hunks(&patch);
    assert_eq!(hs.len(), 1);
    let h = hs[0].clone().unwrap();
    assert_eq!((h.old_start, h.old_lines, h.new_start, h.new_lines), (1, 3, 1, 4));
    assert_eq!(h.origins, vec![' ', '-', '+', '+', ' ']);
    assert_eq!(h.contents, vec!["a", "b", "B1", "B2", "c"]);
    let a = DiffAlignment::from_patch(&patch, 3, 4).unwrap();
    let b = DiffAlignment::from_hunks(&vec![h], 3, 4);
    assert!(a.left == b.left && a.right == b.right);
}

#[test]
fn backspace_takes_back_a_typed_ascii_char_anywhere_in_the_line() {
    for col in 0..=5 {
        let mut ed = editor(Some("e.txt"), Some("hello\nzz\n"));
        let (w, b) = (&mut ed.windows[0], &mut ed.buffers[0]);
        w.col = col;
        insert_char(w, b, '#');
        backspace(w, b);
        assert_eq!(b.line_text(0), "hello");
        assert_eq!((w.row, w.col), (0, col));
    }
}

#[test]
fn delete_forward_takes_one_ascii_char() {
    let mut ed = editor(Some("e.txt"), Some("hello\nzz\n"));
    let (w, b) = (&mut ed.windows[0], &mut ed.buffers[0]);
    w.col = 2;
    ce_editor::editing::delete_char_forward(w, b);
    assert_eq!(b.line_text(0), "helo");
    assert_eq!((w.row, w.col), (0, 2));
}
