//! The text of a line as the runtime reads it: plain strings and commands,
//! among them the commands that run scripts (`\exec`) and offer choices
//! (`\switch`).

use crate::exec::Program;
use vstd::prelude::*;

verus! {

/// A TeX-like command in the text.
pub enum Command {
    /// `\ch{}{}`
    ///
    /// Controls the current character: its key and, where given, its alias.
    Character(String, String),
    /// `\exec{}`
    ///
    /// Executes a program and calculates the return value into text.
    Exec(Program),
    /// `\switch{}{}{}`
    ///
    /// A switch.
    Switch {
        /// The text of the switch.
        text: String,
        /// The action after choosing the switch.
        action: Program,
        /// The expression that determines whether the switch is enabled.
        enabled: Option<Program>,
    },
    /// Other custom commands.
    Other(String, Vec<String>),
}

/// A part of a line, either some texts or a command.
pub enum Line {
    /// Raw texts.
    Str(String),
    /// A command. See [`Command`].
    Cmd(Command),
}

/// A collection of [`Line`].
pub struct Text(pub Vec<Line>);

} // verus!
