//! The extension point of the editor: extensions see each command before
//! the built-in handler and may claim it.

use vstd::prelude::*;

verus! {

/// What an extension answers when it is offered a command.
#[derive(Debug, Clone, Copy, PartialEq, Eq, Structural)]
pub enum CommandResult {
    /// The extension handled the command; the built-in handler is skipped.
    Handled,
    /// The extension left the command to the built-in handler.
    NotHandled,
}

/// An editor extension.  Every hook but `name` has a default that does
/// nothing, so an extension implements only the hooks it needs.
pub trait EditorExt {
    /// Name of the extension, for diagnostics and the interface.
    fn name(&self) -> &str;

    /// Offered each command before the built-in handler; by default the
    /// command is left alone.
    fn on_command(&self, cmd: &str) -> (r: CommandResult)
        default_ensures
            r == CommandResult::NotHandled,
    {
        CommandResult::NotHandled
    }
}

} // verus!
