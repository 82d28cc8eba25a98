//! `:checkhealth`: the report of which tools and settings the editor
//! finds.  The probes themselves (running programs, opening the
//! clipboard, asking the terminal) are made by the caller; this module
//! turns their outcomes into the report and styles its lines.

use crate::text::{chars_of, has_prefix, push_str, push_decimal, decimal, string_push, trim_str};
use crate::save::{ToolRun, trimmed};
use vstd::prelude::*;

verus! {

/// Lines of a health report under construction.
pub struct HealthBuilder {
    pub lines: Vec<String>,
}

pub open spec fn str_views(v: Seq<String>) -> Seq<Seq<char>> {
    v.map_values(|s: String| s@)
}

/// `lines` joined with line feeds between them.
pub open spec fn join_lines(lines: Seq<Seq<char>>) -> Seq<char>
    decreases lines.len(),
{
    if lines.len() == 0 {
        Seq::empty()
    } else if lines.len() == 1 {
        lines[0]
    } else {
        join_lines(lines.drop_last()) + seq!['\n'] + lines.last()
    }
}

pub open spec fn header_lines(title: Seq<char>) -> Seq<Seq<char>> {
    seq![Seq::empty(), "## "@ + title, Seq::empty()]
}

pub open spec fn ok_line(msg: Seq<char>) -> Seq<char> {
    "  \u{2713} "@ + msg
}

pub open spec fn error_line(msg: Seq<char>) -> Seq<char> {
    "  \u{2717} "@ + msg
}

pub open spec fn warn_line(msg: Seq<char>) -> Seq<char> {
    "  \u{26a0} "@ + msg
}

pub open spec fn info_line(msg: Seq<char>) -> Seq<char> {
    "    "@ + msg
}

fn prefixed(prefix: &str, msg: &str) -> (s: String)
    ensures
        s@ == prefix@ + msg@,
{
    let mut s = String::from_str(prefix);
    push_str(&mut s, msg);
    s
}

impl HealthBuilder {
    pub open spec fn view_lines(&self) -> Seq<Seq<char>> {
        str_views(self.lines@)
    }

    pub fn new() -> (h: Self)
        ensures
            h.view_lines() == Seq::<Seq<char>>::empty(),
    {
        HealthBuilder { lines: Vec::new() }
    }

    fn push_line(&mut self, s: String)
        ensures
            final(self).view_lines() == old(self).view_lines().push(s@),
    {
        self.lines.push(s);
        proof {
            assert(final(self).view_lines() =~= old(self).view_lines().push(s@));
        }
    }

    /// A blank line, `## title` and another blank line.
    pub fn header(&mut self, title: &str)
        ensures
            final(self).view_lines() == old(self).view_lines() + header_lines(title@),
    {
        self.push_line(String::new());
        self.push_line(prefixed("## ", title));
        self.push_line(String::new());
        proof {
            assert(final(self).view_lines() =~= old(self).view_lines() + header_lines(title@));
        }
    }

    pub fn ok(&mut self, msg: &str)
        ensures
            final(self).view_lines() == old(self).view_lines().push(ok_line(msg@)),
    {
        self.push_line(prefixed("  \u{2713} ", msg));
    }

    pub fn error(&mut self, msg: &str)
        ensures
            final(self).view_lines() == old(self).view_lines().push(error_line(msg@)),
    {
        self.push_line(prefixed("  \u{2717} ", msg));
    }

    pub fn warn(&mut self, msg: &str)
        ensures
            final(self).view_lines() == old(self).view_lines().push(warn_line(msg@)),
    {
        self.push_line(prefixed("  \u{26a0} ", msg));
    }

    pub fn info(&mut self, msg: &str)
        ensures
            final(self).view_lines() == old(self).view_lines().push(info_line(msg@)),
    {
        self.push_line(prefixed("    ", msg));
    }

    /// The report: its lines joined with line feeds.
    pub fn build(self) -> (s: String)
        ensures
            s@ == join_lines(self.view_lines()),
    {
        let mut out = String::new();
        let mut i: usize = 0;
        while i < self.lines.len()
            invariant
                i <= self.lines@.len(),
                out@ == join_lines(self.view_lines().take(i as int)),
            decreases self.lines@.len() - i,
        {
            let ghost before = out@;
            if i > 0 {
                string_push(&mut out, '\n');
            }
            push_str(&mut out, self.lines[i].as_str());
            proof {
                let v = self.view_lines();
                assert(v.take(i + 1).drop_last() =~= v.take(i as int));
                assert(v.take(i + 1).last() == self.lines@[i as int]@);
                if i == 0 {
                    assert(v.take(1).len() == 1);
                    assert(out@ =~= v.take(1)[0]);
                } else {
                    assert(out@ =~= before + seq!['\n'] + self.lines@[i as int]@);
                }
            }
            i = i + 1;
        }
        proof {
            assert(self.view_lines().take(self.lines@.len() as int) =~= self.view_lines());
        }
        out
    }
}

} // verus!

verus! {

/// Report lines for a program that is required (`git`, `rg`): its
/// version, its error output, or that it is missing with a hint.
pub open spec fn tool_lines(name: Seq<char>, run: ToolRun, install: Seq<Seq<char>>) -> Seq<Seq<char>> {
    match run {
        ToolRun::Succeeded(out) => seq![ok_line(name + ": "@ + trimmed(out))],
        ToolRun::Failed(err) => seq![error_line(name + " error: "@ + trimmed(err))],
        ToolRun::NotFound(e) => seq![error_line(name + " not found: "@ + e@)] + install.map_values(
            |l: Seq<char>| info_line(l),
        ),
    }
}

impl HealthBuilder {
    fn tool(&mut self, name: &str, run: &ToolRun)
        ensures
            match *run {
                ToolRun::Succeeded(out) => final(self).view_lines() == old(self).view_lines().push(
                    ok_line(name@ + ": "@ + trimmed(out)),
                ),
                ToolRun::Failed(err) => final(self).view_lines() == old(self).view_lines().push(
                    error_line(name@ + " error: "@ + trimmed(err)),
                ),
                ToolRun::NotFound(e) => final(self).view_lines() == old(self).view_lines().push(
                    error_line(name@ + " not found: "@ + e@),
                ),
            },
    {
        match run {
            ToolRun::Succeeded(out) => {
                let t = trim_str(out.as_str());
                let mut m = String::from_str(name);
                push_str(&mut m, ": ");
                push_str(&mut m, t.as_str());
                self.ok(m.as_str());
            },
            ToolRun::Failed(err) => {
                let t = trim_str(err.as_str());
                let mut m = String::from_str(name);
                push_str(&mut m, " error: ");
                push_str(&mut m, t.as_str());
                self.error(m.as_str());
            },
            ToolRun::NotFound(e) => {
                let mut m = String::from_str(name);
                push_str(&mut m, " not found: ");
                push_str(&mut m, e.as_str());
                self.error(m.as_str());
            },
        }
    }
}

/// The `Git` section, from running `git --version`.
pub fn check_git(hb: &mut HealthBuilder, git: &ToolRun)
    ensures
        final(hb).view_lines() == old(hb).view_lines() + header_lines("Git"@) + tool_lines(
            "git"@,
            *git,
            seq!["Install git: https://git-scm.com/"@],
        ) + seq![ok_line("git2 library: loaded (bundled with ce)"@)],
{
    let ghost before = hb.view_lines();
    hb.header("Git");
    hb.tool("git", git);
    match git {
        ToolRun::NotFound(_) => hb.info("Install git: https://git-scm.com/"),
        _ => {},
    }
    hb.ok("git2 library: loaded (bundled with ce)");
    proof {
        assert(hb.view_lines() =~= before + header_lines("Git"@) + tool_lines(
            "git"@,
            *git,
            seq!["Install git: https://git-scm.com/"@],
        ) + seq![ok_line("git2 library: loaded (bundled with ce)"@)]);
    }
}

/// The `Ripgrep` section, from running `rg --version`.
pub fn check_ripgrep(hb: &mut HealthBuilder, rg: &ToolRun)
    ensures
        final(hb).view_lines() == old(hb).view_lines() + header_lines("Ripgrep"@) + tool_lines(
            "ripgrep"@,
            *rg,
            seq![
                "Install ripgrep: https://github.com/BurntSushi/ripgrep"@,
                "  brew install ripgrep | apt install ripgrep | cargo install ripgrep"@,
            ],
        ),
{
    let ghost before = hb.view_lines();
    hb.header("Ripgrep");
    hb.tool("ripgrep", rg);
    match rg {
        ToolRun::NotFound(_) => {
            hb.info("Install ripgrep: https://github.com/BurntSushi/ripgrep");
            hb.info("  brew install ripgrep | apt install ripgrep | cargo install ripgrep");
        },
        _ => {},
    }
    proof {
        assert(hb.view_lines() =~= before + header_lines("Ripgrep"@) + tool_lines(
            "ripgrep"@,
            *rg,
            seq![
                "Install ripgrep: https://github.com/BurntSushi/ripgrep"@,
                "  brew install ripgrep | apt install ripgrep | cargo install ripgrep"@,
            ],
        ));
    }
}

pub open spec fn rustfmt_lines(run: ToolRun) -> Seq<Seq<char>> {
    match run {
        ToolRun::Succeeded(out) => seq![ok_line("rustfmt: "@ + trimmed(out))],
        _ => seq![
            warn_line("rustfmt not found"@),
            info_line("Needed for auto-formatting .rs files on save"@),
            info_line("Install with: rustup component add rustfmt"@),
        ],
    }
}

/// The optional `rustfmt` section.
pub fn check_rustfmt(hb: &mut HealthBuilder, rustfmt: &ToolRun)
    ensures
        final(hb).view_lines() == old(hb).view_lines() + header_lines("Rustfmt (optional)"@)
            + rustfmt_lines(*rustfmt),
{
    let ghost before = hb.view_lines();
    hb.header("Rustfmt (optional)");
    match rustfmt {
        ToolRun::Succeeded(out) => {
            let t = trim_str(out.as_str());
            let mut m = String::from_str("rustfmt: ");
            push_str(&mut m, t.as_str());
            hb.ok(m.as_str());
        },
        _ => {
            hb.warn("rustfmt not found");
            hb.info("Needed for auto-formatting .rs files on save");
            hb.info("Install with: rustup component add rustfmt");
        },
    }
    proof {
        assert(hb.view_lines() =~= before + header_lines("Rustfmt (optional)"@) + rustfmt_lines(
            *rustfmt,
        ));
    }
}

/// One optional Python formatter: its version, or that it is missing.
pub open spec fn formatter_line(name: Seq<char>, run: ToolRun) -> Seq<char> {
    match run {
        ToolRun::Succeeded(out) => ok_line(name + ": "@ + trimmed(out)),
        _ => warn_line(name + " not found"@),
    }
}

pub open spec fn python_advice(ruff: bool, black: bool) -> Seq<Seq<char>> {
    if !ruff && !black {
        seq![
            info_line("Install ruff or black for .py auto-formatting on save"@),
            info_line("  pip install ruff  |  pip install black"@),
        ]
    } else if ruff {
        seq![info_line("ruff format will be used for .py files on save (preferred)"@)]
    } else {
        seq![info_line("black will be used for .py files on save"@)]
    }
}

impl HealthBuilder {
    fn formatter(&mut self, name: &str, run: &ToolRun) -> (found: bool)
        ensures
            found == run is Succeeded,
            final(self).view_lines() == old(self).view_lines().push(formatter_line(name@, *run)),
    {
        match run {
            ToolRun::Succeeded(out) => {
                let t = trim_str(out.as_str());
                let mut m = String::from_str(name);
                push_str(&mut m, ": ");
                push_str(&mut m, t.as_str());
                self.ok(m.as_str());
                true
            },
            _ => {
                let mut m = String::from_str(name);
                push_str(&mut m, " not found");
                self.warn(m.as_str());
                false
            },
        }
    }
}

/// The optional Python formatters section, from running `ruff` and
/// `black`.
pub fn check_python_formatters(hb: &mut HealthBuilder, ruff: &ToolRun, black: &ToolRun)
    ensures
        final(hb).view_lines() == old(hb).view_lines() + header_lines("Python Formatters (optional)"@)
            + seq![formatter_line("ruff"@, *ruff), formatter_line("black"@, *black)] + python_advice(
            ruff is Succeeded,
            black is Succeeded,
        ),
{
    let ghost before = hb.view_lines();
    hb.header("Python Formatters (optional)");
    let ruff_found = hb.formatter("ruff", ruff);
    let black_found = hb.formatter("black", black);
    if !ruff_found && !black_found {
        hb.info("Install ruff or black for .py auto-formatting on save");
        hb.info("  pip install ruff  |  pip install black");
    } else if ruff_found {
        hb.info("ruff format will be used for .py files on save (preferred)");
    } else {
        hb.info("black will be used for .py files on save");
    }
    proof {
        assert(hb.view_lines() =~= before + header_lines("Python Formatters (optional)"@)
            + seq![formatter_line("ruff"@, *ruff), formatter_line("black"@, *black)] + python_advice(
            ruff is Succeeded,
            black is Succeeded,
        ));
    }
}

pub open spec fn clipboard_lines(clipboard: Result<(), String>) -> Seq<Seq<char>> {
    match clipboard {
        Ok(_) => seq![ok_line("System clipboard (arboard) is available"@)],
        Err(e) => seq![
            error_line("System clipboard (arboard) not available: "@ + e@),
            info_line("On Linux, install xclip or xsel for X11, or check Wayland support"@),
            info_line("On macOS/Windows, this should work out of the box"@),
        ],
    }
}

/// The `Clipboard` section: whether the system clipboard could be
/// opened (`Err` holds the reason it could not).
pub fn check_clipboard(hb: &mut HealthBuilder, clipboard: &Result<(), String>)
    ensures
        final(hb).view_lines() == old(hb).view_lines() + header_lines("Clipboard"@)
            + clipboard_lines(*clipboard),
{
    let ghost before = hb.view_lines();
    hb.header("Clipboard");
    match clipboard {
        Ok(_) => hb.ok("System clipboard (arboard) is available"),
        Err(e) => {
            let mut m = String::from_str("System clipboard (arboard) not available: ");
            push_str(&mut m, e.as_str());
            hb.error(m.as_str());
            hb.info("On Linux, install xclip or xsel for X11, or check Wayland support");
            hb.info("On macOS/Windows, this should work out of the box");
        },
    }
    proof {
        assert(hb.view_lines() =~= before + header_lines("Clipboard"@) + clipboard_lines(*clipboard));
    }
}

pub open spec fn terminal_lines(size: Result<(u16, u16), String>) -> Seq<Seq<char>> {
    match size {
        Ok((cols, rows)) => seq![
            ok_line(
                "Terminal size: "@ + decimal(cols as nat) + " cols \u{d7} "@ + decimal(rows as nat)
                    + " rows"@,
            ),
        ] + (if cols < 80 {
            seq![warn_line("Terminal width < 80 columns; some UI elements may clip"@)]
        } else {
            Seq::empty()
        }) + (if rows < 20 {
            seq![warn_line("Terminal height < 20 rows; consider a larger terminal"@)]
        } else {
            Seq::empty()
        }),
        Err(e) => seq![warn_line("Cannot determine terminal size: "@ + e@)],
    }
}

/// The `Terminal` section, from the terminal size (columns, rows) or the
/// reason it could not be read.
pub fn check_terminal(hb: &mut HealthBuilder, size: &Result<(u16, u16), String>)
    ensures
        final(hb).view_lines() == old(hb).view_lines() + header_lines("Terminal"@) + terminal_lines(
            *size,
        ) + seq![ok_line("Running in interactive terminal mode"@)],
{
    let ghost before = hb.view_lines();
    hb.header("Terminal");
    match size {
        Ok((cols, rows)) => {
            let mut m = String::from_str("Terminal size: ");
            push_decimal(&mut m, *cols as usize);
            push_str(&mut m, " cols \u{d7} ");
            push_decimal(&mut m, *rows as usize);
            push_str(&mut m, " rows");
            hb.ok(m.as_str());
            if *cols < 80 {
                hb.warn("Terminal width < 80 columns; some UI elements may clip");
            }
            if *rows < 20 {
                hb.warn("Terminal height < 20 rows; consider a larger terminal");
            }
        },
        Err(e) => {
            let mut m = String::from_str("Cannot determine terminal size: ");
            push_str(&mut m, e.as_str());
            hb.warn(m.as_str());
        },
    }
    hb.ok("Running in interactive terminal mode");
    proof {
        assert(hb.view_lines() =~= before + header_lines("Terminal"@) + terminal_lines(*size) + seq![
            ok_line("Running in interactive terminal mode"@),
        ]);
    }
}

} // verus!

verus! {

/// How a character of a report line is shown.
#[derive(Debug, Clone, Copy, PartialEq, Eq, Structural)]
pub enum HealthStyle {
    /// The title rule: bold blue.
    Title,
    /// The footer rule: grey.
    Footer,
    /// A section heading: bold yellow.
    Section,
    /// A passed check: green.
    Passed,
    /// The mark of a failed check: bold red.
    ErrorMark,
    /// A failed check: red.
    Error,
    /// A warning: yellow.
    Warn,
    /// Indented information: light grey.
    Info,
}

/// Style of char `i` of report line `line`.
pub open spec fn checkhealth_style(line: Seq<char>, i: int) -> Option<HealthStyle> {
    if has_prefix(line, "\u{2550}\u{2550}"@) {
        Some(HealthStyle::Title)
    } else if has_prefix(line, "\u{2500}\u{2500}"@) {
        Some(HealthStyle::Footer)
    } else if has_prefix(line, "## "@) {
        Some(HealthStyle::Section)
    } else if has_prefix(line, "  \u{2713}"@) {
        if i >= 2 { Some(HealthStyle::Passed) } else { None }
    } else if has_prefix(line, "  \u{2717}"@) {
        if i == 2 {
            Some(HealthStyle::ErrorMark)
        } else if i > 2 {
            Some(HealthStyle::Error)
        } else {
            None
        }
    } else if has_prefix(line, "  \u{26a0}"@) {
        if i >= 2 { Some(HealthStyle::Warn) } else { None }
    } else if has_prefix(line, "    "@) {
        Some(HealthStyle::Info)
    } else {
        None
    }
}

fn starts_with_str(s: &str, prefix: &str) -> (b: bool)
    ensures
        b == has_prefix(s@, prefix@),
{
    crate::text::strip_prefix(s, prefix).is_some()
}

/// Per-char styles of a line of the health report.
pub fn style_for_checkhealth_line(line: &str) -> (styles: Vec<Option<HealthStyle>>)
    ensures
        styles@.len() == line@.len(),
        forall|i: int| 0 <= i < line@.len() ==> styles@[i] == checkhealth_style(line@, i),
{
    let n = chars_of(line).len();
    let title = starts_with_str(line, "\u{2550}\u{2550}");
    let footer = starts_with_str(line, "\u{2500}\u{2500}");
    let section = starts_with_str(line, "## ");
    let ok = starts_with_str(line, "  \u{2713}");
    let err = starts_with_str(line, "  \u{2717}");
    let warn = starts_with_str(line, "  \u{26a0}");
    let info = starts_with_str(line, "    ");
    let mut styles: Vec<Option<HealthStyle>> = Vec::new();
    let mut i: usize = 0;
    while i < n
        invariant
            n == line@.len(),
            i <= n,
            title == has_prefix(line@, "\u{2550}\u{2550}"@),
            footer == has_prefix(line@, "\u{2500}\u{2500}"@),
            section == has_prefix(line@, "## "@),
            ok == has_prefix(line@, "  \u{2713}"@),
            err == has_prefix(line@, "  \u{2717}"@),
            warn == has_prefix(line@, "  \u{26a0}"@),
            info == has_prefix(line@, "    "@),
            styles@.len() == i,
            forall|j: int| 0 <= j < i ==> styles@[j] == checkhealth_style(line@, j),
        decreases n - i,
    {
        let st = if title {
            Some(HealthStyle::Title)
        } else if footer {
            Some(HealthStyle::Footer)
        } else if section {
            Some(HealthStyle::Section)
        } else if ok {
            if i >= 2 { Some(HealthStyle::Passed) } else { None }
        } else if err {
            if i == 2 {
                Some(HealthStyle::ErrorMark)
            } else if i > 2 {
                Some(HealthStyle::Error)
            } else {
                None
            }
        } else if warn {
            if i >= 2 { Some(HealthStyle::Warn) } else { None }
        } else if info {
            Some(HealthStyle::Info)
        } else {
            None
        };
        styles.push(st);
        i = i + 1;
    }
    styles
}

} // verus!

verus! {

/// What `serde_json` reports when `s` is not valid JSON (`None` when it
/// is).
pub uninterp spec fn json_error_of(s: Seq<char>) -> Option<Seq<char>>;

/// `serde_json::from_str::<serde_json::Value>`, keeping only the error
/// message when parsing fails.
#[verifier::external_body]
fn json_syntax_error(s: &str) -> (r: Option<String>)
    ensures
        crate::buffer::opt_view(r) == json_error_of(s@),
{
    serde_json::from_str::<serde_json::Value>(s).err().map(|e| e.to_string())
}

/// Where the configuration file is and what reading it gave.
pub enum ConfigFile {
    /// The config path could not be worked out.
    NoPath(String),
    /// No file at `path` (shown as given).
    Absent(String),
    /// A file at `path`, with its content or the read error.
    Present(String, Result<String, String>),
}

/// The settings the report lists.
pub struct ConfigSummary {
    pub init_mode: String,
    pub format_on_save: bool,
    pub show_startup_hints: bool,
    pub popup_enabled: bool,
    /// Custom key bindings per mode: normal, insert, brief, command,
    /// visual, global.
    pub bindings: [usize; 6],
}

pub open spec fn bool_text(b: bool) -> Seq<char> {
    if b {
        "true"@
    } else {
        "false"@
    }
}

fn push_bool(s: &mut String, b: bool)
    ensures
        final(s)@ == old(s)@ + bool_text(b),
{
    if b {
        push_str(s, "true");
    } else {
        push_str(s, "false");
    }
}

pub open spec fn config_file_lines(f: ConfigFile) -> Seq<Seq<char>> {
    match f {
        ConfigFile::NoPath(e) => seq![error_line("Cannot determine config path: "@ + e@)],
        ConfigFile::Absent(p) => seq![
            ok_line("Using default configuration (no config file found)"@),
            info_line("Would be at: "@ + p@),
        ],
        ConfigFile::Present(p, Ok(c)) => seq![
            ok_line("Config file: "@ + p@),
            match json_error_of(c@) {
                None => ok_line("Config file is valid JSON"@),
                Some(e) => error_line("Config file has invalid JSON: "@ + e),
            },
        ],
        ConfigFile::Present(p, Err(e)) => seq![
            ok_line("Config file: "@ + p@),
            error_line("Cannot read config file: "@ + e@),
        ],
    }
}

pub open spec fn binding_total(b: [usize; 6]) -> int {
    b@[0] + b@[1] + b@[2] + b@[3] + b@[4] + b@[5]
}

pub open spec fn settings_lines(c: ConfigSummary) -> Seq<Seq<char>> {
    let b = c.bindings@;
    let total = binding_total(c.bindings);
    seq![
        info_line("init_mode: "@ + c.init_mode@),
        info_line("format_on_save: "@ + bool_text(c.format_on_save)),
        info_line("show_startup_hints: "@ + bool_text(c.show_startup_hints)),
        info_line("popup_enabled: "@ + bool_text(c.popup_enabled)),
        info_line("Custom keybindings parsed:"@),
        info_line("  Normal:   "@ + decimal(b[0] as nat) + " bindings"@),
        info_line("  Insert:   "@ + decimal(b[1] as nat) + " bindings"@),
        info_line("  Brief:    "@ + decimal(b[2] as nat) + " bindings"@),
        info_line("  Command:  "@ + decimal(b[3] as nat) + " bindings"@),
        info_line("  Visual:   "@ + decimal(b[4] as nat) + " bindings"@),
        info_line("  Global:   "@ + decimal(b[5] as nat) + " bindings"@),
        if total == 0 {
            info_line("  (Using default keybindings)"@)
        } else {
            ok_line("Total: "@ + decimal(total as nat) + " custom bindings loaded"@)
        },
    ]
}

fn info_count(hb: &mut HealthBuilder, label: &str, n: usize)
    ensures
        final(hb).view_lines() == old(hb).view_lines().push(info_line(label@ + decimal(n as nat) + " bindings"@)),
{
    let mut m = String::from_str(label);
    push_decimal(&mut m, n);
    push_str(&mut m, " bindings");
    hb.info(m.as_str());
}

fn info_setting(hb: &mut HealthBuilder, label: &str, b: bool)
    ensures
        final(hb).view_lines() == old(hb).view_lines().push(info_line(label@ + bool_text(b))),
{
    let mut m = String::from_str(label);
    push_bool(&mut m, b);
    hb.info(m.as_str());
}

fn config_file_section(hb: &mut HealthBuilder, file: &ConfigFile)
    ensures
        final(hb).view_lines() == old(hb).view_lines() + config_file_lines(*file),
{
    let ghost before = hb.view_lines();
    match file {
        ConfigFile::NoPath(e) => {
            let mut m = String::from_str("Cannot determine config path: ");
            push_str(&mut m, e.as_str());
            hb.error(m.as_str());
        },
        ConfigFile::Absent(p) => {
            hb.ok("Using default configuration (no config file found)");
            let mut m = String::from_str("Would be at: ");
            push_str(&mut m, p.as_str());
            hb.info(m.as_str());
        },
        ConfigFile::Present(p, content) => {
            let mut m = String::from_str("Config file: ");
            push_str(&mut m, p.as_str());
            hb.ok(m.as_str());
            match content {
                Ok(c) => match json_syntax_error(c.as_str()) {
                    None => hb.ok("Config file is valid JSON"),
                    Some(e) => {
                        let mut m2 = String::from_str("Config file has invalid JSON: ");
                        push_str(&mut m2, e.as_str());
                        hb.error(m2.as_str());
                    },
                },
                Err(e) => {
                    let mut m2 = String::from_str("Cannot read config file: ");
                    push_str(&mut m2, e.as_str());
                    hb.error(m2.as_str());
                },
            }
        },
    }
    proof {
        assert(hb.view_lines() =~= before + config_file_lines(*file));
    }
}

fn settings_section(hb: &mut HealthBuilder, cfg: &ConfigSummary)
    requires
        binding_total(cfg.bindings) <= usize::MAX,
    ensures
        final(hb).view_lines() == old(hb).view_lines() + settings_lines(*cfg),
{
    let ghost before = hb.view_lines();
    let mut m = String::from_str("init_mode: ");
    push_str(&mut m, cfg.init_mode.as_str());
    hb.info(m.as_str());
    info_setting(hb, "format_on_save: ", cfg.format_on_save);
    info_setting(hb, "show_startup_hints: ", cfg.show_startup_hints);
    info_setting(hb, "popup_enabled: ", cfg.popup_enabled);
    hb.info("Custom keybindings parsed:");
    let b = &cfg.bindings;
    info_count(hb, "  Normal:   ", b[0]);
    info_count(hb, "  Insert:   ", b[1]);
    info_count(hb, "  Brief:    ", b[2]);
    info_count(hb, "  Command:  ", b[3]);
    info_count(hb, "  Visual:   ", b[4]);
    info_count(hb, "  Global:   ", b[5]);
    let total = b[0] + b[1] + b[2] + b[3] + b[4] + b[5];
    if total == 0 {
        hb.info("  (Using default keybindings)");
    } else {
        let mut m3 = String::from_str("Total: ");
        push_decimal(&mut m3, total);
        push_str(&mut m3, " custom bindings loaded");
        hb.ok(m3.as_str());
    }
    proof {
        assert(hb.view_lines() =~= before + settings_lines(*cfg));
    }
}

/// The `Configuration` section.
pub fn check_config(hb: &mut HealthBuilder, file: &ConfigFile, cfg: &ConfigSummary)
    requires
        binding_total(cfg.bindings) <= usize::MAX,
    ensures
        final(hb).view_lines() == old(hb).view_lines() + header_lines("Configuration"@)
            + config_file_lines(*file) + settings_lines(*cfg),
{
    let ghost before = hb.view_lines();
    hb.header("Configuration");
    config_file_section(hb, file);
    settings_section(hb, cfg);
    proof {
        assert(hb.view_lines() =~= before + header_lines("Configuration"@) + config_file_lines(*file)
            + settings_lines(*cfg));
    }
}

/// Whether the language model server could be reached.
pub enum LlmReach {
    Reachable,
    /// Resolved, but the connection failed.
    ConnectFailed(String),
    /// The address resolved to nothing.
    Unresolved,
    /// The address could not be parsed.
    Invalid(String),
}

pub open spec fn llm_lines(addr: Seq<char>, has_key: bool, reach: LlmReach) -> Seq<Seq<char>> {
    seq![
        info_line("Configured endpoint: "@ + addr),
        if has_key {
            ok_line("API key is configured"@)
        } else {
            warn_line("No API key configured (optional for local LLMs)"@)
        },
    ] + match reach {
        LlmReach::Reachable => seq![ok_line("LLM server is reachable at "@ + addr)],
        LlmReach::ConnectFailed(e) => seq![
            warn_line("Cannot connect to LLM server at "@ + addr + ": "@ + e@),
            info_line("Start your LLM server, or update llm_url / llm_port in config"@),
        ],
        LlmReach::Unresolved => seq![warn_line("Cannot resolve LLM address: "@ + addr)],
        LlmReach::Invalid(e) => seq![warn_line("Invalid LLM address '"@ + addr + "': "@ + e@)],
    }
}

/// `url:port`, the address of the language model server.
pub fn llm_address(url: &str, port: u16) -> (a: String)
    ensures
        a@ == url@ + ":"@ + decimal(port as nat),
{
    let mut a = String::from_str(url);
    push_str(&mut a, ":");
    push_decimal(&mut a, port as usize);
    a
}

/// The `LLM Assistant` section.
pub fn check_llm(hb: &mut HealthBuilder, url: &str, port: u16, has_api_key: bool, reach: &LlmReach)
    ensures
        final(hb).view_lines() == old(hb).view_lines() + header_lines("LLM Assistant"@) + llm_lines(
            url@ + ":"@ + decimal(port as nat),
            has_api_key,
            *reach,
        ),
{
    let ghost before = hb.view_lines();
    hb.header("LLM Assistant");
    let addr = llm_address(url, port);
    let mut m = String::from_str("Configured endpoint: ");
    push_str(&mut m, addr.as_str());
    hb.info(m.as_str());
    if has_api_key {
        hb.ok("API key is configured");
    } else {
        hb.warn("No API key configured (optional for local LLMs)");
    }
    match reach {
        LlmReach::Reachable => {
            let mut m2 = String::from_str("LLM server is reachable at ");
            push_str(&mut m2, addr.as_str());
            hb.ok(m2.as_str());
        },
        LlmReach::ConnectFailed(e) => {
            let mut m2 = String::from_str("Cannot connect to LLM server at ");
            push_str(&mut m2, addr.as_str());
            push_str(&mut m2, ": ");
            push_str(&mut m2, e.as_str());
            hb.warn(m2.as_str());
            hb.info("Start your LLM server, or update llm_url / llm_port in config");
        },
        LlmReach::Unresolved => {
            let mut m2 = String::from_str("Cannot resolve LLM address: ");
            push_str(&mut m2, addr.as_str());
            hb.warn(m2.as_str());
        },
        LlmReach::Invalid(e) => {
            let mut m2 = String::from_str("Invalid LLM address '");
            push_str(&mut m2, addr.as_str());
            push_str(&mut m2, "': ");
            push_str(&mut m2, e.as_str());
            hb.warn(m2.as_str());
        },
    }
    proof {
        assert(hb.view_lines() =~= before + header_lines("LLM Assistant"@) + llm_lines(
            addr@,
            has_api_key,
            *reach,
        ));
    }
}

} // verus!

verus! {

pub open spec fn grammar_lines(gs: Seq<(String, bool)>) -> Seq<Seq<char>>
    decreases gs.len(),
{
    if gs.len() == 0 {
        Seq::empty()
    } else {
        let g = gs.last();
        grammar_lines(gs.drop_last()).push(
            if g.1 {
                ok_line("  "@ + g.0@)
            } else {
                warn_line("  "@ + g.0@ + " (not available)"@)
            },
        )
    }
}

/// The `Tree-sitter` section: the parser ABI version and which grammars
/// are compiled in.
pub fn check_treesitter(hb: &mut HealthBuilder, abi: usize, grammars: &Vec<(String, bool)>)
    ensures
        final(hb).view_lines() == old(hb).view_lines() + header_lines("Tree-sitter"@) + seq![
            ok_line("Tree-sitter ABI version: "@ + decimal(abi as nat)),
            info_line("Compiled-in grammars:"@),
        ] + grammar_lines(grammars@) + seq![
            info_line("Other languages use regex / line-based highlighting"@),
        ],
{
    let ghost before = hb.view_lines();
    hb.header("Tree-sitter");
    let mut m = String::from_str("Tree-sitter ABI version: ");
    push_decimal(&mut m, abi);
    hb.ok(m.as_str());
    hb.info("Compiled-in grammars:");
    let ghost mid = hb.view_lines();
    let mut i: usize = 0;
    while i < grammars.len()
        invariant
            i <= grammars@.len(),
            hb.view_lines() == mid + grammar_lines(grammars@.take(i as int)),
        decreases grammars@.len() - i,
    {
        let mut line = String::from_str("  ");
        push_str(&mut line, grammars[i].0.as_str());
        if grammars[i].1 {
            hb.ok(line.as_str());
        } else {
            push_str(&mut line, " (not available)");
            hb.warn(line.as_str());
        }
        proof {
            assert(grammars@.take(i + 1).drop_last() =~= grammars@.take(i as int));
            assert(hb.view_lines() =~= mid + grammar_lines(grammars@.take(i + 1)));
        }
        i = i + 1;
    }
    hb.info("Other languages use regex / line-based highlighting");
    proof {
        assert(grammars@.take(grammars@.len() as int) =~= grammars@);
        assert(hb.view_lines() =~= before + header_lines("Tree-sitter"@) + seq![
            ok_line("Tree-sitter ABI version: "@ + decimal(abi as nat)),
            info_line("Compiled-in grammars:"@),
        ] + grammar_lines(grammars@) + seq![
            info_line("Other languages use regex / line-based highlighting"@),
        ]);
    }
}

/// Everything the probes found, for the whole report.
pub struct HealthProbes {
    pub clipboard: Result<(), String>,
    pub git: ToolRun,
    pub ripgrep: ToolRun,
    pub rustfmt: ToolRun,
    pub ruff: ToolRun,
    pub black: ToolRun,
    pub config_file: ConfigFile,
    pub config: ConfigSummary,
    pub treesitter_abi: usize,
    pub grammars: Vec<(String, bool)>,
    pub llm_url: String,
    pub llm_port: u16,
    pub llm_has_api_key: bool,
    pub llm_reach: LlmReach,
    pub terminal_size: Result<(u16, u16), String>,
}

pub open spec fn rule_line(c: char) -> Seq<char> {
    Seq::new(78, |i: int| c)
}

fn rule(c: char) -> (s: String)
    ensures
        s@ == rule_line(c),
{
    let mut s = String::new();
    let mut i: usize = 0;
    while i < 78
        invariant
            i <= 78,
            s@ == Seq::new(i as nat, |j: int| c),
        decreases 78 - i,
    {
        string_push(&mut s, c);
        i = i + 1;
        proof {
            assert(s@ =~= Seq::new(i as nat, |j: int| c));
        }
    }
    s
}

/// The lines of the full health report, in order.
pub open spec fn report_lines(p: HealthProbes) -> Seq<Seq<char>> {
    seq![rule_line('\u{2550}'), "  ce health check"@, rule_line('\u{2550}')]
        + header_lines("Clipboard"@) + clipboard_lines(p.clipboard)
        + header_lines("Git"@) + tool_lines("git"@, p.git, seq!["Install git: https://git-scm.com/"@])
        + seq![ok_line("git2 library: loaded (bundled with ce)"@)]
        + header_lines("Ripgrep"@) + tool_lines(
            "ripgrep"@,
            p.ripgrep,
            seq![
                "Install ripgrep: https://github.com/BurntSushi/ripgrep"@,
                "  brew install ripgrep | apt install ripgrep | cargo install ripgrep"@,
            ],
        )
        + header_lines("Rustfmt (optional)"@) + rustfmt_lines(p.rustfmt)
        + header_lines("Python Formatters (optional)"@)
        + seq![formatter_line("ruff"@, p.ruff), formatter_line("black"@, p.black)]
        + python_advice(p.ruff is Succeeded, p.black is Succeeded)
        + header_lines("Configuration"@) + config_file_lines(p.config_file) + settings_lines(p.config)
        + header_lines("Tree-sitter"@) + seq![
            ok_line("Tree-sitter ABI version: "@ + decimal(p.treesitter_abi as nat)),
            info_line("Compiled-in grammars:"@),
        ] + grammar_lines(p.grammars@) + seq![
            info_line("Other languages use regex / line-based highlighting"@),
        ]
        + header_lines("LLM Assistant"@) + llm_lines(
            p.llm_url@ + ":"@ + decimal(p.llm_port as nat),
            p.llm_has_api_key,
            p.llm_reach,
        )
        + header_lines("Terminal"@) + terminal_lines(p.terminal_size)
        + seq![ok_line("Running in interactive terminal mode"@)]
        + seq![Seq::empty(), rule_line('\u{2500}'), "  Press q to close "@]
}

/// The text of the health report: its lines joined by line feeds.
#[verifier::rlimit(100)]
pub fn checkhealth_report(p: &HealthProbes) -> (text: String)
    requires
        binding_total(p.config.bindings) <= usize::MAX,
    ensures
        text@ == join_lines(report_lines(*p)),
{
    let mut hb = HealthBuilder::new();
    hb.push_line(rule('\u{2550}'));
    hb.push_line(String::from_str("  ce health check"));
    hb.push_line(rule('\u{2550}'));
    check_clipboard(&mut hb, &p.clipboard);
    check_git(&mut hb, &p.git);
    check_ripgrep(&mut hb, &p.ripgrep);
    check_rustfmt(&mut hb, &p.rustfmt);
    check_python_formatters(&mut hb, &p.ruff, &p.black);
    check_config(&mut hb, &p.config_file, &p.config);
    check_treesitter(&mut hb, p.treesitter_abi, &p.grammars);
    check_llm(&mut hb, p.llm_url.as_str(), p.llm_port, p.llm_has_api_key, &p.llm_reach);
    check_terminal(&mut hb, &p.terminal_size);
    hb.push_line(String::new());
    hb.push_line(rule('\u{2500}'));
    hb.push_line(String::from_str("  Press q to close "));
    proof {
        assert(hb.view_lines() =~= report_lines(*p));
    }
    hb.build()
}

} // verus!
