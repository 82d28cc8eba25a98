use ce_editor::build_log::{
    extract_brace_content, extract_snippet, format_build_buffer, parse_cargo_output, parse_location,
    parse_path_line_col, BuildDiagnostic, BuildSeverity,
};

fn diag(path: &str, line: usize, col: usize, sev: BuildSeverity, msg: &str) -> BuildDiagnostic {
    BuildDiagnostic {
        file_path: path.to_string(),
        line_number: line,
        column: col,
        severity: sev,
        message: msg.to_string(),
    }
}

fn same(d: &BuildDiagnostic, path: &str, line: usize, col: usize, sev: BuildSeverity, msg: &str) -> bool {
    d.file_path == path && d.line_number == line && d.column == col && d.severity == sev && d.message == msg
}

#[test]
fn short_format_location_with_message() {
    let d = parse_location("src/main.rs:10:5: error: mismatched types").unwrap();
    assert!(same(&d, "src/main.rs", 10, 5, BuildSeverity::Error, "mismatched types"));
}

#[test]
fn short_format_with_a_code() {
    let d = parse_location("  src/lib.rs:3:1: warning[unused]: unused import  ").unwrap();
    assert!(same(&d, "src/lib.rs", 3, 1, BuildSeverity::Warning, "unused import"));
}

#[test]
fn human_format_arrow_line() {
    let d = parse_location("  --> src/ed/build.rs:42:7").unwrap();
    assert!(same(&d, "src/ed/build.rs", 42, 7, BuildSeverity::Error, ""));
}

#[test]
fn text_without_location_gives_nothing() {
    assert!(parse_location("just some text").is_none());
    assert!(parse_location("a.rs:x:1: error: e").is_none());
}

#[test]
fn path_line_col_trims_trailing_colons() {
    let d = parse_path_line_col("a.rs:1:2:").unwrap();
    assert!(same(&d, "a.rs", 1, 2, BuildSeverity::Error, ""));
    assert!(parse_path_line_col(":1:2").is_none());
    assert!(parse_path_line_col("1:2").is_none());
}

#[test]
fn cargo_output_joins_relative_paths() {
    let out = "src/a.rs:1:2: error: boom\n  --> b.rs:3:4\n/abs/x.rs:5:6: note: n\nplain\n";
    let ds = parse_cargo_output(out, "/root/p");
    assert_eq!(ds.len(), 3);
    assert!(same(&ds[0], "/root/p/src/a.rs", 1, 2, BuildSeverity::Error, "boom"));
    assert!(same(&ds[1], "/root/p/b.rs", 3, 4, BuildSeverity::Error, ""));
    assert!(same(&ds[2], "/abs/x.rs", 5, 6, BuildSeverity::Note, "n"));
}

#[test]
fn brace_content_and_snippets() {
    assert_eq!(extract_brace_content("let x = {  a + b  };"), Some("a + b".to_string()));
    assert_eq!(extract_brace_content("no braces"), None);
    assert_eq!(extract_snippet("error: `foo` not found"), Some("foo".to_string()));
    assert_eq!(extract_snippet("  | let y = 3;"), Some("let y = 3;".to_string()));
    assert_eq!(extract_snippet("  | ^^^"), None);
}

#[test]
fn build_buffer_counts_and_frames_the_output() {
    let ds = vec![
        diag("a", 1, 1, BuildSeverity::Error, "e"),
        diag("b", 1, 1, BuildSeverity::Warning, "w"),
        diag("c", 1, 1, BuildSeverity::Note, "n"),
    ];
    let rule40 = "\u{2500}".repeat(40);
    let rule14 = "\u{2500}".repeat(14);
    let expected = format!(
        "  [BUILD] cargo build --release \u{2014} 1 error(s), 1 warning(s)\n  {}\n\n  {} Raw Output {}\nline1\n\n  {}\n  [Enter] goto error  [r] rebuild  [q] close\n",
        rule40, rule14, rule14, rule40
    );
    assert_eq!(format_build_buffer("line1", &ds), expected);
    let empty = format_build_buffer("  \n", &[]);
    assert!(empty.contains("  (no output)\n"));
    assert!(empty.starts_with("  [BUILD] cargo build --release \u{2014} 0 error(s), 0 warning(s)\n"));
}
