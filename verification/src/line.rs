//! The lines of a paragraph.

use crate::exec::Program;
use crate::parser::Text;
use crate::raw_value::RawValue;
use crate::str_map::StrMap;
use vstd::prelude::*;

verus! {

/// Represents a line in a paragraph.
pub enum Line {
    /// An empty line, usually falls back to the line of the base language.
    Empty,
    /// A text line.
    Text(Text),
    /// An `exec` line, to execute scripts.
    Exec {
        /// The program to execute (the line's `exec` entry).
        program: Program,
    },
    /// Some `switches`.
    Switch {
        /// The switch items.
        switches: Vec<String>,
    },
    /// Custom line types.
    Custom(StrMap<RawValue>),
}

/// Whether a line is there and is a text line.
pub open spec fn is_text_line(line: Option<&Line>) -> bool {
    match line {
        Some(Line::Text(_)) => true,
        _ => false,
    }
}

/// Only a text line counts as one: no line, an empty line, an `exec` line,
/// a line of switches and a custom line do not.
pub proof fn lemma_only_text_lines(line: Option<&Line>)
    ensures
        is_text_line(line) <==> (line is Some && line->0 is Text),
        line is None ==> !is_text_line(line),
        (line matches Some(Line::Empty)) ==> !is_text_line(line),
        (line matches Some(Line::Exec { .. })) ==> !is_text_line(line),
        (line matches Some(Line::Switch { .. })) ==> !is_text_line(line),
        (line matches Some(Line::Custom(_))) ==> !is_text_line(line),
{
}

} // verus!
