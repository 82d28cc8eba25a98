//! Saving a buffer.  Writing the file and running a formatter are done by
//! the caller; this module decides whether and how a buffer is saved,
//! which formatter applies, what the outcome means for the user, and how
//! the buffer looks afterwards.

use crate::buffer::{Buffer, BufferKind, opt_view, loaded_text};
use crate::rope::{rope_to_string, rope_chars};
use crate::text::{ends_with, has_suffix, push_str, trim_str, trim_end_ws, trim_start_ws};
use vstd::prelude::*;

verus! {

/// How running an outside program went: it succeeded (with its output),
/// it failed (with its error output), or it could not be started.
#[derive(Debug, Clone)]
pub enum ToolRun {
    Succeeded(String),
    Failed(String),
    NotFound(String),
}

/// Why a buffer cannot be saved.
#[derive(Debug, Clone, Copy, PartialEq, Eq, Structural)]
pub enum SaveError {
    SpecialBuffer,
    NoFilename,
}

impl SaveError {
    pub fn message(&self) -> (m: String)
        ensures
            m@ == (match *self {
                SaveError::SpecialBuffer => "Cannot save a special buffer"@,
                SaveError::NoFilename => "No filename \u{2014} use :w <path>"@,
            }),
    {
        match self {
            SaveError::SpecialBuffer => String::from_str("Cannot save a special buffer"),
            SaveError::NoFilename => String::from_str("No filename \u{2014} use :w <path>"),
        }
    }
}

/// The formatter run after a save.
#[derive(Debug, Clone, Copy, PartialEq, Eq, Structural)]
pub enum Formatter {
    Unformatted,
    Rustfmt,
    RuffOrBlack,
    Gofmt,
}

/// What to write where, and which formatter follows.
pub struct SavePlan {
    pub path: String,
    pub text: String,
    pub formatter: Formatter,
}

/// Buffers of these kinds are never saved.
pub open spec fn unsaveable(kind: BufferKind) -> bool {
    kind == BufferKind::GitLog || kind == BufferKind::GitDiff || kind == BufferKind::GitDiffHead
        || kind == BufferKind::Ripgrep || kind == BufferKind::GitStatus || kind == BufferKind::Llm
        || kind == BufferKind::CheckHealth
}

pub open spec fn formatter_spec(path: Seq<char>, format_on_save: bool) -> Formatter {
    if !format_on_save {
        Formatter::Unformatted
    } else if has_suffix(path, ".rs"@) {
        Formatter::Rustfmt
    } else if has_suffix(path, ".py"@) || has_suffix(path, ".pyi"@) {
        Formatter::RuffOrBlack
    } else if has_suffix(path, ".go"@) {
        Formatter::Gofmt
    } else {
        Formatter::Unformatted
    }
}

/// Formatter for a file named `path`, chosen by its extension.
pub fn formatter_for(path: &str, format_on_save: bool) -> (f: Formatter)
    ensures
        f == formatter_spec(path@, format_on_save),
{
    if !format_on_save {
        Formatter::Unformatted
    } else if ends_with(path, ".rs") {
        Formatter::Rustfmt
    } else if ends_with(path, ".py") || ends_with(path, ".pyi") {
        Formatter::RuffOrBlack
    } else if ends_with(path, ".go") {
        Formatter::Gofmt
    } else {
        Formatter::Unformatted
    }
}

/// Warning after a save followed by a formatter that reads the text on
/// stdin (`rustfmt`, `gofmt`): `write_error` and `reload_error` say how
/// writing its output back and reloading the file went.
pub open spec fn piped_warning(
    tool: Seq<char>,
    run: ToolRun,
    write_error: Option<Seq<char>>,
    reload_error: Option<Seq<char>>,
) -> Option<Seq<char>> {
    match run {
        ToolRun::Succeeded(_) => match write_error {
            Some(e) => Some("Saved, but failed to write "@ + tool + " output: "@ + e),
            None => match reload_error {
                Some(e) => Some("Saved, but failed to reload after "@ + tool + ": "@ + e),
                None => None,
            },
        },
        ToolRun::Failed(err) => Some("Saved, "@ + tool + " failed: "@ + trim_end_ws(trim_start_ws(err@))),
        ToolRun::NotFound(e) => Some("Saved, but "@ + tool + " not found: "@ + e@),
    }
}

fn opt_string_view(o: &Option<String>) -> (r: Option<&str>)
    ensures
        match r {
            Some(s) => *o matches Some(t) && s@ == t@,
            None => *o is None,
        },
{
    match o {
        Some(s) => Some(s.as_str()),
        None => None,
    }
}

/// See `piped_warning`.
pub fn piped_format_warning(
    tool: &str,
    run: &ToolRun,
    write_error: &Option<String>,
    reload_error: &Option<String>,
) -> (w: Option<String>)
    ensures
        opt_view(w) == piped_warning(tool@, *run, opt_view(*write_error), opt_view(*reload_error)),
{
    match run {
        ToolRun::Succeeded(_) => match write_error {
            Some(e) => {
                let mut s = String::from_str("Saved, but failed to write ");
                push_str(&mut s, tool);
                push_str(&mut s, " output: ");
                push_str(&mut s, e.as_str());
                Some(s)
            },
            None => match reload_error {
                Some(e) => {
                    let mut s = String::from_str("Saved, but failed to reload after ");
                    push_str(&mut s, tool);
                    push_str(&mut s, ": ");
                    push_str(&mut s, e.as_str());
                    Some(s)
                },
                None => None,
            },
        },
        ToolRun::Failed(err) => {
            let t = trim_str(err.as_str());
            let mut s = String::from_str("Saved, ");
            push_str(&mut s, tool);
            push_str(&mut s, " failed: ");
            push_str(&mut s, t.as_str());
            Some(s)
        },
        ToolRun::NotFound(e) => {
            let mut s = String::from_str("Saved, but ");
            push_str(&mut s, tool);
            push_str(&mut s, " not found: ");
            push_str(&mut s, e.as_str());
            Some(s)
        },
    }
}

pub open spec fn trimmed(s: String) -> Seq<char> {
    trim_end_ws(trim_start_ws(s@))
}

/// Whether `ruff format` (or `black` after it) formatted the file, and
/// the warning for the user.  `black` is the run of `black` when `ruff`
/// did not succeed.
pub open spec fn python_outcome(ruff: ToolRun, black: Option<ToolRun>) -> (bool, Option<Seq<char>>) {
    match ruff {
        ToolRun::Succeeded(_) => (true, None),
        ToolRun::Failed(rerr) => match black {
            Some(ToolRun::Succeeded(_)) => (true, None),
            Some(ToolRun::Failed(berr)) => (
                false,
                Some("Saved, but ruff ("@ + trimmed(rerr) + ") and black ("@ + trimmed(berr) + ") both failed"@),
            ),
            _ => (false, Some("Saved, but ruff ("@ + trimmed(rerr) + ") failed and black not found"@)),
        },
        ToolRun::NotFound(_) => match black {
            Some(ToolRun::Succeeded(_)) => (true, None),
            Some(ToolRun::Failed(berr)) => (false, Some("Saved, but black failed: "@ + trimmed(berr))),
            _ => (false, Some("Saved, but neither ruff nor black found for formatting"@)),
        },
    }
}

/// See `python_outcome`.
pub fn python_format_outcome(ruff: &ToolRun, black: &Option<ToolRun>) -> (r: (bool, Option<String>))
    ensures
        r.0 == python_outcome(*ruff, *black).0,
        opt_view(r.1) == python_outcome(*ruff, *black).1,
{
    match ruff {
        ToolRun::Succeeded(_) => (true, None),
        ToolRun::Failed(rerr) => {
            let re = trim_str(rerr.as_str());
            match black {
                Some(ToolRun::Succeeded(_)) => (true, None),
                Some(ToolRun::Failed(berr)) => {
                    let be = trim_str(berr.as_str());
                    let mut s = String::from_str("Saved, but ruff (");
                    push_str(&mut s, re.as_str());
                    push_str(&mut s, ") and black (");
                    push_str(&mut s, be.as_str());
                    push_str(&mut s, ") both failed");
                    (false, Some(s))
                },
                _ => {
                    let mut s = String::from_str("Saved, but ruff (");
                    push_str(&mut s, re.as_str());
                    push_str(&mut s, ") failed and black not found");
                    (false, Some(s))
                },
            }
        },
        ToolRun::NotFound(_) => match black {
            Some(ToolRun::Succeeded(_)) => (true, None),
            Some(ToolRun::Failed(berr)) => {
                let be = trim_str(berr.as_str());
                let mut s = String::from_str("Saved, but black failed: ");
                push_str(&mut s, be.as_str());
                (false, Some(s))
            },
            _ => (false, Some(String::from_str("Saved, but neither ruff nor black found for formatting"))),
        },
    }
}

impl Buffer {
    /// What saving this buffer writes, or why it cannot be saved.
    pub fn save_plan(&self, format_on_save: bool) -> (r: Result<SavePlan, SaveError>)
        ensures
            unsaveable(self.kind) ==> r == Err::<SavePlan, SaveError>(SaveError::SpecialBuffer),
            !unsaveable(self.kind) && self.filename is None ==> r == Err::<SavePlan, SaveError>(
                SaveError::NoFilename,
            ),
            !unsaveable(self.kind) && self.filename is Some ==> (r matches Ok(p) && p.path@
                == self.filename->0@ && p.text@ == self.text() && p.formatter == formatter_spec(
                p.path@,
                format_on_save,
            )),
    {
        match self.kind {
            BufferKind::GitLog | BufferKind::GitDiff | BufferKind::GitDiffHead | BufferKind::Ripgrep
            | BufferKind::GitStatus | BufferKind::Llm | BufferKind::CheckHealth => {
                return Err(SaveError::SpecialBuffer);
            },
            _ => {},
        }
        match &self.filename {
            Some(path) => {
                let text = rope_to_string(&self.rope);
                let formatter = formatter_for(path.as_str(), format_on_save);
                Ok(SavePlan { path: path.clone(), text, formatter })
            },
            None => Err(SaveError::NoFilename),
        }
    }

    /// The file was written: the buffer is no longer modified.  When a
    /// formatter rewrote the file, `reloaded` is what was read back, and
    /// the git signs are dropped when `clear_git_signs` says so.
    pub fn finish_save(&mut self, reloaded: Option<&str>, clear_git_signs: bool)
        ensures
            !final(self).modified,
            reloaded matches Some(c) ==> final(self).text() == loaded_text(c@),
            reloaded is None ==> final(self).rope == old(self).rope,
            clear_git_signs ==> final(self).git_diffs@ == Map::<usize, crate::buffer::GitSign>::empty(),
            !clear_git_signs ==> final(self).git_diffs@ == old(self).git_diffs@,
            final(self).id == old(self).id,
            final(self).kind == old(self).kind,
            opt_view(final(self).filename) == opt_view(old(self).filename),
            final(self).undo_stack@ == old(self).undo_stack@,
            final(self).redo_stack@ == old(self).redo_stack@,
    {
        match reloaded {
            Some(c) => self.open_file(c),
            None => {},
        }
        if clear_git_signs {
            self.git_diffs.clear();
        }
        self.modified = false;
    }
}

} // verus!
