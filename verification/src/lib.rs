//! Verified core of a modal text editor: the rope-backed buffer model,
//! grapheme-aware editing operations, side-by-side diff alignment,
//! substitution, command history and the smaller parsing helpers that
//! the user interface is built on.

pub mod lines;
pub mod rope;
pub mod text;
pub mod unicode;
pub mod visual;
pub mod buffer;
pub mod diff_align;
pub mod patch;
pub mod window;
pub mod editing;
pub mod tag;
pub mod editor;
pub mod cmdline;
pub mod subst;
pub mod health;
pub mod session;
pub mod save;
pub mod special;
pub mod assoc;
pub mod marks;
pub mod gutter;
pub mod query;
pub mod easymotion;
pub mod build_log;
pub mod hunks;
pub mod ext;
pub mod block;
pub mod opening;
pub mod textobj;
pub mod bufswitch;
pub mod diffsync;
pub mod complete;
pub mod paste;
pub mod panes;
pub mod typing_laws;
pub mod diffthis;
pub mod copilot;
pub mod line_laws;
