//! Buffer data model backed by a rope.
//!
//! A `Buffer` owns the text content (as a `Rope`), filename, undo stack,
//! and modified flag.  Cursor position and scroll state live on a
//! [`crate::window::Window`] so that several windows can view the same
//! buffer with independent viewports.

use crate::diff_align::DiffAlignment;
use crate::lines::{line_len, line_of, line_start, num_lines, lemma_line_start_bounds};
use crate::rope::{
    rope_char, rope_chars, rope_clone, rope_from_str, rope_len_chars, rope_len_lines, rope_line_to_char,
    rope_slice_string,
};
use crate::text::{
    chars_of, has_prefix, path_file_name, spec_path_file_name, str_eq, strip_prefix,
};
use ropey::Rope;
use std::collections::{HashMap, HashSet};
use vstd::prelude::*;
use vstd::string::StringExecFns;

verus! {

#[derive(Debug, Clone)]
pub struct Diagnostic {
    pub line: usize,
    pub start_col: usize,
    pub end_col: usize,
    pub message: String,
    pub is_error: bool,
    pub end_line: usize,
    pub severity: u32,
}

/// One row of a side-by-side diff view.
#[derive(Debug, Clone, Copy, PartialEq, Eq, Structural)]
pub enum VirtualLine {
    /// A real line from the rope (0-based index into the rope).
    Real(usize),
    /// A virtual filler line with no content ("---").
    Padding,
}

/// Distinguishes normal files from special viewers.
#[derive(Debug, Clone, Copy, PartialEq, Eq, Structural)]
pub enum BufferKind {
    /// A normal editable file on disk (or a scratch buffer).
    Normal,
    /// A read-only git-log viewer (tig-like).
    GitLog,
    /// A read-only git-diff viewer.
    GitDiff,
    GitDiffHead,
    Ripgrep,
    GitStatus,
    GitCommit,
    LlmInput,
    CodeLlm,
    Llm,
    CheckHealth,
    Build,
}

#[derive(Debug, Clone, Copy, PartialEq, Eq, Structural)]
pub enum GitSign {
    Added,
    Modified,
    Removed,
}

/// A saved state of the text, for undo and redo.
pub struct UndoSnapshot {
    pub rope: Rope,
    /// Cursor row at the time the snapshot was taken.
    pub cursor_row: usize,
    /// Cursor column at the time the snapshot was taken.
    pub cursor_col: usize,
    pub modified: bool,
}

/// Most snapshots the undo stack keeps.
pub const UNDO_LIMIT: usize = 500;

/// Most snapshots the redo stack keeps.
pub const REDO_LIMIT: usize = 5;

pub struct Buffer {
    pub id: usize,
    pub rope: Rope,
    pub filename: Option<String>,
    pub modified: bool,
    pub undo_stack: Vec<UndoSnapshot>,
    pub redo_stack: Vec<UndoSnapshot>,
    /// Language the syntax layer parses this buffer as (set by `parse_syntax`).
    pub language_id: Option<String>,
    /// Rows that carry a bookmark (0-based), for the gutter.
    pub bookmarks: HashSet<usize>,
    /// Git sign of each changed row (0-based).
    pub git_diffs: HashMap<usize, GitSign>,
    /// Kind of buffer: controls read-only semantics and key overrides.
    pub kind: BufferKind,
    pub diagnostics: Vec<Diagnostic>,
    pub diff_alignment: Option<DiffAlignment>,
    pub ripgrep_line_map: Vec<Option<usize>>,
    pub search_pattern: Option<String>,
    /// Named bookmarks: letter, then (row, col).  No letter occurs twice.
    pub named_bookmarks: Vec<(char, (usize, usize))>,
    /// For CodeLlm buffers: the first line that is editable.
    pub llm_lock_line: usize,
    pub tab_size: usize,
    pub wgrep_mode: bool,
    pub wgrep_prefix_lens: Vec<usize>,
    pub wgrep_original_texts: Vec<String>,
}

/// Kinds whose edits mark the buffer as modified.
pub open spec fn marks_dirty(kind: BufferKind, wgrep_mode: bool) -> bool {
    kind == BufferKind::Normal || kind == BufferKind::LlmInput || kind == BufferKind::GitCommit
        || (kind == BufferKind::Ripgrep && wgrep_mode)
}

/// Read-only special buffers.
pub open spec fn readonly_kind(kind: BufferKind, wgrep_mode: bool) -> bool {
    if kind == BufferKind::Ripgrep && wgrep_mode {
        false
    } else {
        kind == BufferKind::GitLog || kind == BufferKind::GitDiff || kind == BufferKind::GitDiffHead
            || kind == BufferKind::Ripgrep || kind == BufferKind::Llm || kind
            == BufferKind::CheckHealth || kind == BufferKind::Build
    }
}

/// Chars after the last `.` of `name` (all of `name` when it has none).
pub open spec fn ext_of(name: Seq<char>) -> Seq<char>
    decreases name.len(),
{
    if name.len() == 0 {
        name
    } else if name.last() == '.' {
        Seq::empty()
    } else {
        ext_of(name.drop_last()).push(name.last())
    }
}

/// Language id for a file extension.
pub open spec fn language_for_ext(e: Seq<char>) -> Seq<char> {
    if e == "rs"@ {
        "rust"@
    } else if e == "py"@ {
        "python"@
    } else if e == "js"@ {
        "javascript"@
    } else if e == "ts"@ {
        "typescript"@
    } else if e == "tsx"@ {
        "typescriptreact"@
    } else if e == "jsx"@ {
        "javascriptreact"@
    } else if e == "go"@ {
        "go"@
    } else if e == "java"@ {
        "java"@
    } else if e == "c"@ || e == "h"@ {
        "c"@
    } else if e == "cpp"@ || e == "hpp"@ || e == "cc"@ || e == "cxx"@ {
        "cpp"@
    } else if e == "rb"@ {
        "ruby"@
    } else if e == "php"@ {
        "php"@
    } else if e == "swift"@ {
        "swift"@
    } else if e == "kt"@ || e == "kts"@ {
        "kotlin"@
    } else if e == "sh"@ || e == "bash"@ {
        "bash"@
    } else if e == "sql"@ {
        "sql"@
    } else if e == "html"@ || e == "htm"@ {
        "html"@
    } else if e == "css"@ {
        "css"@
    } else if e == "scss"@ {
        "scss"@
    } else if e == "json"@ {
        "json"@
    } else if e == "yaml"@ || e == "yml"@ {
        "yaml"@
    } else if e == "md"@ || e == "markdown"@ {
        "markdown"@
    } else if e == "lua"@ {
        "lua"@
    } else if e == "vim"@ {
        "vim"@
    } else if e == "dart"@ {
        "dart"@
    } else if e == "diff"@ || e == "patch"@ {
        "diff"@
    } else {
        "plaintext"@
    }
}

/// Language id `detect_language` gives for a file name.
pub open spec fn detect_language_spec(filename: Option<Seq<char>>) -> Seq<char> {
    match filename {
        Some(f) => language_for_ext(ext_of(f)),
        None => "plaintext"@,
    }
}

/// The extension part of `name`: the chars after its last `.`.
pub fn file_extension(name: &str) -> (e: String)
    ensures
        e@ == ext_of(name@),
{
    let v = chars_of(name);
    let mut i: usize = v.len();
    assert(v@.take(i as int) =~= v@);
    assert(v@.skip(i as int) =~= Seq::<char>::empty());
    assert(ext_of(name@) =~= ext_of(v@.take(i as int)) + v@.skip(i as int));
    while i > 0 && v[i - 1] != '.'
        invariant
            v@ == name@,
            i <= v@.len(),
            ext_of(name@) == ext_of(v@.take(i as int)) + v@.skip(i as int),
        decreases i,
    {
        proof {
            let t = v@.take(i as int);
            assert(t.drop_last() =~= v@.take(i - 1));
            assert(t.last() == v@[i - 1]);
            assert(v@.skip(i - 1) =~= seq![v@[i - 1]] + v@.skip(i as int));
            assert(ext_of(t) == ext_of(t.drop_last()).push(t.last()));
            assert(ext_of(t.drop_last()).push(t.last()) + v@.skip(i as int) =~= ext_of(
                v@.take(i - 1),
            ) + v@.skip(i - 1));
        }
        i = i - 1;
    }
    proof {
        if i > 0 {
            assert(v@.take(i as int).last() == '.');
        }
        assert(ext_of(v@.take(i as int)) =~= Seq::<char>::empty());
        assert(ext_of(name@) =~= v@.skip(i as int));
    }
    let rest = vstd::slice::slice_subrange(v.as_slice(), i, v.len());
    crate::text::string_from_chars(rest)
}

fn lang(s: &str) -> (r: String)
    ensures
        r@ == s@,
{
    String::from_str(s)
}

/// Language id for a file extension.
pub fn language_for_extension(e: &str) -> (r: String)
    ensures
        r@ == language_for_ext(e@),
{
    if str_eq(e, "rs") {
        lang("rust")
    } else if str_eq(e, "py") {
        lang("python")
    } else if str_eq(e, "js") {
        lang("javascript")
    } else if str_eq(e, "ts") {
        lang("typescript")
    } else if str_eq(e, "tsx") {
        lang("typescriptreact")
    } else if str_eq(e, "jsx") {
        lang("javascriptreact")
    } else if str_eq(e, "go") {
        lang("go")
    } else if str_eq(e, "java") {
        lang("java")
    } else if str_eq(e, "c") || str_eq(e, "h") {
        lang("c")
    } else if str_eq(e, "cpp") || str_eq(e, "hpp") || str_eq(e, "cc") || str_eq(e, "cxx") {
        lang("cpp")
    } else if str_eq(e, "rb") {
        lang("ruby")
    } else if str_eq(e, "php") {
        lang("php")
    } else if str_eq(e, "swift") {
        lang("swift")
    } else if str_eq(e, "kt") || str_eq(e, "kts") {
        lang("kotlin")
    } else if str_eq(e, "sh") || str_eq(e, "bash") {
        lang("bash")
    } else if str_eq(e, "sql") {
        lang("sql")
    } else if str_eq(e, "html") || str_eq(e, "htm") {
        lang("html")
    } else if str_eq(e, "css") {
        lang("css")
    } else if str_eq(e, "scss") {
        lang("scss")
    } else if str_eq(e, "json") {
        lang("json")
    } else if str_eq(e, "yaml") || str_eq(e, "yml") {
        lang("yaml")
    } else if str_eq(e, "md") || str_eq(e, "markdown") {
        lang("markdown")
    } else if str_eq(e, "lua") {
        lang("lua")
    } else if str_eq(e, "vim") {
        lang("vim")
    } else if str_eq(e, "dart") {
        lang("dart")
    } else if str_eq(e, "diff") || str_eq(e, "patch") {
        lang("diff")
    } else {
        lang("plaintext")
    }
}

/// Language id for a file name, chosen by its extension.
pub fn detect_language(filename: Option<&str>) -> (r: String)
    ensures
        r@ == detect_language_spec(
            match filename {
                Some(f) => Some(f@),
                None => None,
            },
        ),
{
    match filename {
        Some(f) => {
            let e = file_extension(f);
            language_for_extension(e.as_str())
        },
        None => lang("plaintext"),
    }
}

/// Display name of a language id, for the status bar.
pub open spec fn language_display_spec(id: Seq<char>) -> Seq<char> {
    if id == "gitlog"@ {
        "Git Log"@
    } else if id == "gitstatus"@ {
        "Git Status"@
    } else if id == "rg"@ {
        "Ripgrep"@
    } else if id == "diff"@ {
        "Diff"@
    } else if id == "rust"@ {
        "Rust"@
    } else if id == "python"@ {
        "Python"@
    } else if id == "javascript"@ {
        "JavaScript"@
    } else if id == "typescript"@ {
        "TypeScript"@
    } else if id == "typescriptreact"@ {
        "TSX"@
    } else if id == "javascriptreact"@ {
        "JSX"@
    } else if id == "go"@ {
        "Go"@
    } else if id == "java"@ {
        "Java"@
    } else if id == "c"@ {
        "C"@
    } else if id == "cpp"@ {
        "C++"@
    } else if id == "ruby"@ {
        "Ruby"@
    } else if id == "php"@ {
        "PHP"@
    } else if id == "swift"@ {
        "Swift"@
    } else if id == "kotlin"@ {
        "Kotlin"@
    } else if id == "bash"@ {
        "Shell"@
    } else if id == "sql"@ {
        "SQL"@
    } else if id == "html"@ {
        "HTML"@
    } else if id == "css"@ {
        "CSS"@
    } else if id == "scss"@ {
        "SCSS"@
    } else if id == "json"@ {
        "JSON"@
    } else if id == "yaml"@ {
        "YAML"@
    } else if id == "markdown"@ {
        "Markdown"@
    } else if id == "lua"@ {
        "Lua"@
    } else if id == "dart"@ {
        "Dart"@
    } else {
        "Plain Text"@
    }
}

/// Display name of a language id, for the status bar.
pub fn language_display(id: &str) -> (r: &'static str)
    ensures
        r@ == language_display_spec(id@),
{
    if str_eq(id, "gitlog") {
        "Git Log"
    } else if str_eq(id, "gitstatus") {
        "Git Status"
    } else if str_eq(id, "rg") {
        "Ripgrep"
    } else if str_eq(id, "diff") {
        "Diff"
    } else if str_eq(id, "rust") {
        "Rust"
    } else if str_eq(id, "python") {
        "Python"
    } else if str_eq(id, "javascript") {
        "JavaScript"
    } else if str_eq(id, "typescript") {
        "TypeScript"
    } else if str_eq(id, "typescriptreact") {
        "TSX"
    } else if str_eq(id, "javascriptreact") {
        "JSX"
    } else if str_eq(id, "go") {
        "Go"
    } else if str_eq(id, "java") {
        "Java"
    } else if str_eq(id, "c") {
        "C"
    } else if str_eq(id, "cpp") {
        "C++"
    } else if str_eq(id, "ruby") {
        "Ruby"
    } else if str_eq(id, "php") {
        "PHP"
    } else if str_eq(id, "swift") {
        "Swift"
    } else if str_eq(id, "kotlin") {
        "Kotlin"
    } else if str_eq(id, "bash") {
        "Shell"
    } else if str_eq(id, "sql") {
        "SQL"
    } else if str_eq(id, "html") {
        "HTML"
    } else if str_eq(id, "css") {
        "CSS"
    } else if str_eq(id, "scss") {
        "SCSS"
    } else if str_eq(id, "json") {
        "JSON"
    } else if str_eq(id, "yaml") {
        "YAML"
    } else if str_eq(id, "markdown") {
        "Markdown"
    } else if str_eq(id, "lua") {
        "Lua"
    } else if str_eq(id, "dart") {
        "Dart"
    } else {
        "Plain Text"
    }
}

} // verus!

verus! {

broadcast use vstd::std_specs::hash::group_hash_axioms;

/// What a snapshot holds, as plain values: text, cursor row, cursor col,
/// modified flag.
pub type SnapView = (Seq<char>, usize, usize, bool);

impl View for UndoSnapshot {
    type V = SnapView;

    open spec fn view(&self) -> SnapView {
        (rope_chars(self.rope), self.cursor_row, self.cursor_col, self.modified)
    }
}

/// The views of a stack of snapshots, bottom first.
pub open spec fn stack_view(s: Seq<UndoSnapshot>) -> Seq<SnapView> {
    s.map_values(|x: UndoSnapshot| x@)
}

/// Push `snap` onto a stack that keeps at most `limit` entries, dropping
/// the oldest when it overflows.
pub open spec fn bounded_push(s: Seq<SnapView>, snap: SnapView, limit: nat) -> Seq<SnapView> {
    if s.len() + 1 > limit {
        s.push(snap).drop_first()
    } else {
        s.push(snap)
    }
}

/// Undo gives back the step recorded last: after a push the top of the
/// stack is the pushed snapshot, below it the older ones (less the oldest
/// when the stack was full), and the stack never grows past its limit.
pub proof fn lemma_undo_read_back(s: Seq<SnapView>, snap: SnapView, limit: nat)
    requires
        limit > 0,
    ensures
        bounded_push(s, snap, limit).last() == snap,
        bounded_push(s, snap, limit).drop_last() == (if s.len() + 1 > limit {
            s.drop_first()
        } else {
            s
        }),
        s.len() <= limit ==> bounded_push(s, snap, limit).len() <= limit,
{
    if s.len() + 1 > limit {
        assert(s.push(snap).drop_first().drop_last() =~= s.drop_first());
    } else {
        assert(s.push(snap).drop_last() =~= s);
    }
}

/// Text a buffer holds after loading file content `c`: a missing final
/// line feed is added, and an empty file becomes one empty line.
pub open spec fn loaded_text(c: Seq<char>) -> Seq<char> {
    if c.len() == 0 {
        seq!['\n']
    } else if c.last() == '\n' {
        c
    } else {
        c.push('\n')
    }
}

/// Language the syntax layer gets for a buffer of this kind and name.
pub open spec fn syntax_language_spec(
    kind: BufferKind,
    wgrep_mode: bool,
    filename: Option<Seq<char>>,
) -> Seq<char> {
    match kind {
        BufferKind::Llm => "llm"@,
        BufferKind::GitStatus => "gitstatus"@,
        BufferKind::GitDiff => "diff"@,
        BufferKind::GitLog => "gitlog"@,
        BufferKind::Ripgrep => if wgrep_mode {
            "plaintext"@
        } else {
            "rg"@
        },
        BufferKind::CheckHealth => "checkhealth"@,
        BufferKind::CodeLlm => "llm"@,
        _ => detect_language_spec(filename),
    }
}

pub open spec fn opt_view(o: Option<String>) -> Option<Seq<char>> {
    match o {
        Some(s) => Some(s@),
        None => None,
    }
}

/// Name shown for a buffer in tabs and the status bar.
pub open spec fn display_name_spec(kind: BufferKind, wgrep_mode: bool, filename: Option<Seq<char>>) -> Seq<char> {
    match kind {
        BufferKind::GitLog => "[Git Log]"@,
        BufferKind::GitDiff => "[Git Diff]"@,
        BufferKind::Ripgrep => if wgrep_mode {
            "[wgrep]"@
        } else {
            "[Ripgrep]"@
        },
        BufferKind::GitCommit => "[Git Commit]"@,
        BufferKind::GitStatus => "[Git Status]"@,
        BufferKind::CheckHealth => "[Check Health]"@,
        BufferKind::CodeLlm => "[Code LLM]"@,
        BufferKind::Build => "Build"@,
        BufferKind::GitDiffHead => match filename {
            Some(p) => if has_prefix(p, "git://head/"@) {
                match spec_path_file_name(p.skip("git://head/"@.len() as int)) {
                    Some(n) => n,
                    None => "[HEAD]"@,
                }
            } else {
                "[HEAD]"@
            },
            None => "[HEAD]"@,
        },
        BufferKind::LlmInput => "[LLM Prompt]"@,
        BufferKind::Llm => "[LLM Conversation]"@,
        BufferKind::Normal => match filename {
            Some(p) => match spec_path_file_name(p) {
                Some(n) => n,
                None => "[No Name]"@,
            },
            None => "[No Name]"@,
        },
    }
}

impl Buffer {
    /// The text the buffer holds.
    pub open spec fn text(&self) -> Seq<char> {
        rope_chars(self.rope)
    }

    pub open spec fn undo_view(&self) -> Seq<SnapView> {
        stack_view(self.undo_stack@)
    }

    pub open spec fn redo_view(&self) -> Seq<SnapView> {
        stack_view(self.redo_stack@)
    }

    /// Mark the buffer as modified, but only if it's a normal editable buffer.
    /// Special buffers (GitLog, Ripgrep, LLM, etc.) never get marked dirty.
    pub fn mark_modified(&mut self)
        ensures
            final(self).modified == (old(self).modified || marks_dirty(
                old(self).kind,
                old(self).wgrep_mode,
            )),
            *final(self) == (Buffer { modified: final(self).modified, ..*old(self) }),
    {
        if self.kind == BufferKind::Normal || self.kind == BufferKind::LlmInput || self.kind
            == BufferKind::GitCommit || (self.kind == BufferKind::Ripgrep && self.wgrep_mode) {
            self.modified = true;
        }
    }

    /// Language id the syntax layer parses this buffer as.
    pub fn syntax_language(&self) -> (r: String)
        ensures
            r@ == syntax_language_spec(self.kind, self.wgrep_mode, opt_view(self.filename)),
    {
        match self.kind {
            BufferKind::Llm => lang("llm"),
            BufferKind::GitStatus => lang("gitstatus"),
            BufferKind::GitDiff => lang("diff"),
            BufferKind::GitLog => lang("gitlog"),
            BufferKind::Ripgrep => {
                if self.wgrep_mode {
                    lang("plaintext")
                } else {
                    lang("rg")
                }
            },
            BufferKind::CheckHealth => lang("checkhealth"),
            BufferKind::CodeLlm => lang("llm"),
            _ => match &self.filename {
                Some(f) => detect_language(Some(f.as_str())),
                None => detect_language(None),
            },
        }
    }

    /// Re-select the syntax language of the buffer after its kind, name or
    /// text changed.
    pub fn parse_syntax(&mut self)
        ensures
            final(self).language_id matches Some(l) && l@ == syntax_language_spec(
                old(self).kind,
                old(self).wgrep_mode,
                opt_view(old(self).filename),
            ),
            *final(self) == (Buffer { language_id: final(self).language_id, ..*old(self) }),
    {
        let l = self.syntax_language();
        self.language_id = Some(l);
    }

    /// A new buffer.  `file_content` is the content of the file named by
    /// `filename` when that file exists (read by the caller); without a
    /// name the buffer holds one empty line, and a name whose file does
    /// not exist starts with no text.
    pub fn new(id: usize, filename: Option<String>, file_content: Option<String>) -> (b: Self)
        ensures
            b.id == id,
            opt_view(b.filename) == opt_view(filename),
            b.text() == (match filename {
                Some(_) => match file_content {
                    Some(c) => loaded_text(c@),
                    None => Seq::<char>::empty(),
                },
                None => seq!['\n'],
            }),
            !b.modified,
            b.kind == BufferKind::Normal,
            b.undo_stack@.len() == 0,
            b.redo_stack@.len() == 0,
            b.tab_size == 4,
            !b.wgrep_mode,
            b.llm_lock_line == 0,
            b.named_bookmarks@.len() == 0,
            b.bookmarks@.is_empty(),
            b.git_diffs@.is_empty(),
            b.language_id matches Some(l) && l@ == detect_language_spec(opt_view(filename)),
    {
        let mut buf = Buffer {
            id,
            rope: rope_from_str(""),
            filename: None,
            modified: false,
            undo_stack: Vec::new(),
            redo_stack: Vec::new(),
            language_id: None,
            bookmarks: HashSet::new(),
            git_diffs: HashMap::new(),
            kind: BufferKind::Normal,
            diagnostics: Vec::new(),
            diff_alignment: None,
            ripgrep_line_map: Vec::new(),
            search_pattern: None,
            named_bookmarks: Vec::new(),
            llm_lock_line: 0,
            tab_size: 4,
            wgrep_mode: false,
            wgrep_prefix_lens: Vec::new(),
            wgrep_original_texts: Vec::new(),
        };
        proof {
            reveal_strlit("");
        }
        match filename {
            Some(path) => {
                if let Some(c) = file_content {
                    buf.open_file(c.as_str());
                }
                buf.filename = Some(path);
            },
            None => {
                buf.rope = rope_from_str("\n");
                proof {
                    reveal_strlit("\n");
                }
            },
        }
        buf.parse_syntax();
        buf
    }

    /// Load file content into the buffer (the file was read by the caller).
    pub fn open_file(&mut self, content: &str)
        ensures
            final(self).text() == loaded_text(content@),
            !final(self).modified,
            final(self).language_id matches Some(l) && l@ == syntax_language_spec(
                old(self).kind,
                old(self).wgrep_mode,
                opt_view(old(self).filename),
            ),
            final(self).id == old(self).id,
            final(self).kind == old(self).kind,
            final(self).wgrep_mode == old(self).wgrep_mode,
            opt_view(final(self).filename) == opt_view(old(self).filename),
            final(self).tab_size == old(self).tab_size,
            final(self).undo_stack@ == old(self).undo_stack@,
            final(self).redo_stack@ == old(self).redo_stack@,
            final(self).llm_lock_line == old(self).llm_lock_line,
            final(self).named_bookmarks@ == old(self).named_bookmarks@,
            final(self).bookmarks@ == old(self).bookmarks@,
            final(self).git_diffs@ == old(self).git_diffs@,
    {
        let v = chars_of(content);
        if v.len() == 0 {
            self.rope = rope_from_str("\n");
            proof {
                reveal_strlit("\n");
            }
        } else if v[v.len() - 1] == '\n' {
            self.rope = rope_from_str(content);
        } else {
            let mut s = String::from_str(content);
            crate::text::string_push(&mut s, '\n');
            self.rope = rope_from_str(s.as_str());
        }
        self.modified = false;
        self.parse_syntax();
    }

    /// Returns true if `line` is in the editable zone (at or below
    /// `llm_lock_line`).  Always true for non-CodeLlm buffers.
    pub fn is_editable_line(&self, line: usize) -> (r: bool)
        ensures
            r == (self.kind != BufferKind::CodeLlm || line >= self.llm_lock_line),
    {
        if self.kind != BufferKind::CodeLlm {
            return true;
        }
        line >= self.llm_lock_line
    }

    /// Returns `true` for read-only special buffers (git log / diff).
    pub fn is_readonly(&self) -> (r: bool)
        ensures
            r == readonly_kind(self.kind, self.wgrep_mode),
    {
        if self.kind == BufferKind::Ripgrep && self.wgrep_mode {
            return false;
        }
        match self.kind {
            BufferKind::GitLog | BufferKind::GitDiff | BufferKind::GitDiffHead
            | BufferKind::Ripgrep | BufferKind::Llm | BufferKind::CheckHealth
            | BufferKind::Build => true,
            _ => false,
        }
    }

    pub fn len_lines(&self) -> (n: usize)
        ensures
            n == num_lines(self.text()),
    {
        rope_len_lines(&self.rope)
    }

    /// Text of line `idx` without its line feed; empty past the last line.
    pub fn line_text(&self, idx: usize) -> (s: String)
        ensures
            s@ == line_of(self.text(), idx as nat),
    {
        if idx >= rope_len_lines(&self.rope) {
            return String::new();
        }
        let start = rope_line_to_char(&self.rope, idx);
        let end = rope_line_to_char(&self.rope, idx + 1);
        proof {
            lemma_line_start_bounds(self.text(), idx as nat);
            lemma_line_start_bounds(self.text(), (idx + 1) as nat);
        }
        if end > start {
            if rope_char(&self.rope, end - 1) == '\n' {
                rope_slice_string(&self.rope, start, end - 1)
            } else {
                rope_slice_string(&self.rope, start, end)
            }
        } else {
            String::new()
        }
    }

    /// Number of chars on line `idx`, not counting its line feed.
    pub fn line_char_len(&self, idx: usize) -> (n: usize)
        ensures
            n == line_len(self.text(), idx as nat),
    {
        if idx >= rope_len_lines(&self.rope) {
            return 0;
        }
        let start = rope_line_to_char(&self.rope, idx);
        let end = rope_line_to_char(&self.rope, idx + 1);
        proof {
            lemma_line_start_bounds(self.text(), idx as nat);
            lemma_line_start_bounds(self.text(), (idx + 1) as nat);
        }
        let len = end - start;
        if len > 0 && rope_char(&self.rope, end - 1) == '\n' {
            len - 1
        } else {
            len
        }
    }
}

} // verus!

verus! {

impl Buffer {
    /// Record the current text as an undo step.  Any new edit invalidates
    /// the redo history.  Read-only buffers keep no history.
    pub fn push_undo(&mut self, cursor_row: usize, cursor_col: usize)
        ensures
            readonly_kind(old(self).kind, old(self).wgrep_mode) ==> *final(self) == *old(self),
            !readonly_kind(old(self).kind, old(self).wgrep_mode) ==> {
                &&& final(self).undo_view() == bounded_push(
                    old(self).undo_view(),
                    (old(self).text(), cursor_row, cursor_col, old(self).modified),
                    UNDO_LIMIT as nat,
                )
                &&& final(self).redo_stack@.len() == 0
                &&& *final(self) == (Buffer {
                    undo_stack: final(self).undo_stack,
                    redo_stack: final(self).redo_stack,
                    ..*old(self)
                })
            },
    {
        if self.is_readonly() {
            return;
        }
        let snap = UndoSnapshot {
            rope: rope_clone(&self.rope),
            cursor_row,
            cursor_col,
            modified: self.modified,
        };
        let ghost before = self.undo_view();
        self.undo_stack.push(snap);
        proof {
            assert(self.undo_view() =~= before.push(snap@));
        }
        if self.undo_stack.len() > UNDO_LIMIT {
            let _ = self.undo_stack.remove(0);
            proof {
                assert(self.undo_view() =~= before.push(snap@).drop_first());
            }
        }
        self.redo_stack.clear();
    }

    /// Take the most recent undo snapshot, saving the state being left on
    /// the redo stack (which keeps at most `REDO_LIMIT` entries).
    pub fn pop_undo(&mut self, cursor_row: usize, cursor_col: usize) -> (r: Option<UndoSnapshot>)
        ensures
            old(self).undo_stack@.len() == 0 ==> r is None && *final(self) == *old(self),
            old(self).undo_stack@.len() > 0 ==> {
                &&& r matches Some(s) && s@ == old(self).undo_view().last()
                &&& final(self).undo_view() == old(self).undo_view().drop_last()
                &&& final(self).redo_view() == bounded_push(
                    old(self).redo_view(),
                    (old(self).text(), cursor_row, cursor_col, old(self).modified),
                    REDO_LIMIT as nat,
                )
                &&& *final(self) == (Buffer {
                    undo_stack: final(self).undo_stack,
                    redo_stack: final(self).redo_stack,
                    ..*old(self)
                })
            },
    {
        if self.undo_stack.len() == 0 {
            return None;
        }
        let ghost before_undo = self.undo_view();
        let snap = match self.undo_stack.pop() {
            Some(s) => s,
            None => return None,
        };
        proof {
            assert(self.undo_view() =~= before_undo.drop_last());
        }
        let redo_snap = UndoSnapshot {
            rope: rope_clone(&self.rope),
            modified: self.modified,
            cursor_row,
            cursor_col,
        };
        let ghost before = self.redo_view();
        self.redo_stack.push(redo_snap);
        proof {
            assert(self.redo_view() =~= before.push(redo_snap@));
        }
        if self.redo_stack.len() > REDO_LIMIT {
            let _ = self.redo_stack.remove(0);
            proof {
                assert(self.redo_view() =~= before.push(redo_snap@).drop_first());
            }
        }
        Some(snap)
    }

    /// Pop the most recent redo snapshot, pushing the current state onto
    /// the undo stack.
    pub fn pop_redo(&mut self, cursor_row: usize, cursor_col: usize) -> (r: Option<UndoSnapshot>)
        ensures
            old(self).redo_stack@.len() == 0 ==> r is None && *final(self) == *old(self),
            old(self).redo_stack@.len() > 0 ==> {
                &&& r matches Some(s) && s@ == old(self).redo_view().last()
                &&& final(self).redo_view() == old(self).redo_view().drop_last()
                &&& final(self).undo_view() == bounded_push(
                    old(self).undo_view(),
                    (old(self).text(), cursor_row, cursor_col, old(self).modified),
                    UNDO_LIMIT as nat,
                )
                &&& *final(self) == (Buffer {
                    undo_stack: final(self).undo_stack,
                    redo_stack: final(self).redo_stack,
                    ..*old(self)
                })
            },
    {
        if self.redo_stack.len() == 0 {
            return None;
        }
        let ghost before_redo = self.redo_view();
        let snap = match self.redo_stack.pop() {
            Some(s) => s,
            None => return None,
        };
        proof {
            assert(self.redo_view() =~= before_redo.drop_last());
        }
        let undo_snap = UndoSnapshot {
            rope: rope_clone(&self.rope),
            modified: self.modified,
            cursor_row,
            cursor_col,
        };
        let ghost before = self.undo_view();
        self.undo_stack.push(undo_snap);
        proof {
            assert(self.undo_view() =~= before.push(undo_snap@));
        }
        if self.undo_stack.len() > UNDO_LIMIT {
            let _ = self.undo_stack.remove(0);
            proof {
                assert(self.undo_view() =~= before.push(undo_snap@).drop_first());
            }
        }
        Some(snap)
    }

    /// Name shown for the buffer in tabs and the status bar.
    pub fn display_name(&self) -> (r: String)
        ensures
            r@ == display_name_spec(self.kind, self.wgrep_mode, opt_view(self.filename)),
    {
        match self.kind {
            BufferKind::GitLog => lang("[Git Log]"),
            BufferKind::GitDiff => lang("[Git Diff]"),
            BufferKind::Ripgrep => {
                if self.wgrep_mode {
                    lang("[wgrep]")
                } else {
                    lang("[Ripgrep]")
                }
            },
            BufferKind::GitCommit => lang("[Git Commit]"),
            BufferKind::GitStatus => lang("[Git Status]"),
            BufferKind::CheckHealth => lang("[Check Health]"),
            BufferKind::CodeLlm => lang("[Code LLM]"),
            BufferKind::Build => lang("Build"),
            BufferKind::GitDiffHead => match &self.filename {
                Some(p) => match strip_prefix(p.as_str(), "git://head/") {
                    Some(rest) => match path_file_name(rest.as_str()) {
                        Some(n) => n,
                        None => lang("[HEAD]"),
                    },
                    None => lang("[HEAD]"),
                },
                None => lang("[HEAD]"),
            },
            BufferKind::LlmInput => lang("[LLM Prompt]"),
            BufferKind::Llm => lang("[LLM Conversation]"),
            BufferKind::Normal => match &self.filename {
                Some(p) => match path_file_name(p.as_str()) {
                    Some(n) => n,
                    None => lang("[No Name]"),
                },
                None => lang("[No Name]"),
            },
        }
    }

    /// Display name of the language the buffer is parsed as.
    pub fn language_display_name(&self) -> (r: &'static str)
        ensures
            r@ == language_display_spec(
                match self.language_id {
                    Some(l) => l@,
                    None => ""@,
                },
            ),
    {
        match &self.language_id {
            Some(l) => language_display(l.as_str()),
            None => language_display(""),
        }
    }

    /// First char column that is editable on `row` in wgrep mode (just
    /// after the `file:line:col:` prefix).  0 for non-wgrep buffers; the
    /// whole line for rows without a recorded prefix.
    pub fn wgrep_editable_col_start(&self, row: usize) -> (c: usize)
        ensures
            c == if !self.wgrep_mode || self.kind != BufferKind::Ripgrep {
                0
            } else if row < self.wgrep_prefix_lens@.len() {
                self.wgrep_prefix_lens@[row as int] as nat
            } else {
                line_len(self.text(), row as nat)
            },
    {
        if !self.wgrep_mode || self.kind != BufferKind::Ripgrep {
            return 0;
        }
        if row < self.wgrep_prefix_lens.len() {
            self.wgrep_prefix_lens[row]
        } else {
            self.line_char_len(row)
        }
    }

    /// Rebuild `bookmarks` (row-only set used by the gutter) from
    /// `named_bookmarks`.
    pub fn sync_bookmark_rows(&mut self)
        ensures
            final(self).bookmarks@ == Set::new(
                |r: usize|
                    exists|i: int|
                        0 <= i < old(self).named_bookmarks@.len()
                            && #[trigger] old(self).named_bookmarks@[i].1.0 == r,
            ),
            *final(self) == (Buffer { bookmarks: final(self).bookmarks, ..*old(self) }),
    {
        self.bookmarks.clear();
        let mut i: usize = 0;
        while i < self.named_bookmarks.len()
            invariant
                i <= self.named_bookmarks@.len(),
                self.named_bookmarks@ == old(self).named_bookmarks@,
                *self == (Buffer { bookmarks: self.bookmarks, ..*old(self) }),
                self.bookmarks@ == Set::new(
                    |r: usize|
                        exists|j: int|
                            0 <= j < i && #[trigger] old(self).named_bookmarks@[j].1.0 == r,
                ),
            decreases self.named_bookmarks@.len() - i,
        {
            let row = self.named_bookmarks[i].1.0;
            self.bookmarks.insert(row);
            i = i + 1;
            proof {
                assert(self.bookmarks@ =~= Set::new(
                    |r: usize|
                        exists|j: int|
                            0 <= j < i && #[trigger] old(self).named_bookmarks@[j].1.0 == r,
                ));
            }
        }
    }

    /// Placeholder git signs for buffers of more than five lines.
    pub fn update_mock_git_diffs(&mut self)
        ensures
            num_lines(old(self).text()) > 5 ==> final(self).git_diffs@ == Map::<
                usize,
                GitSign,
            >::empty().insert(1, GitSign::Added).insert(3, GitSign::Modified).insert(
                4,
                GitSign::Removed,
            ),
            num_lines(old(self).text()) <= 5 ==> final(self).git_diffs@ == Map::<
                usize,
                GitSign,
            >::empty(),
            *final(self) == (Buffer { git_diffs: final(self).git_diffs, ..*old(self) }),
    {
        self.git_diffs.clear();
        let total = self.len_lines();
        if total > 5 {
            self.git_diffs.insert(1, GitSign::Added);
            self.git_diffs.insert(3, GitSign::Modified);
            self.git_diffs.insert(4, GitSign::Removed);
        }
    }
}

} // verus!
