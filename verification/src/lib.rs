//! Verified core of the Ayaka visual-novel engine: the text lexer and parsers,
//! script values, fallback helpers, actions, plugin registries and records.

pub mod chars;
pub mod loc;
pub mod lexer;
pub mod text_error;
pub mod rich_lexer;
pub mod parser;
pub mod raw_value;
pub mod strings;
pub mod str_map;
pub mod fallback;
pub mod exec;
pub mod action;
pub mod context;
pub mod settings;
pub mod plugin;
pub mod markup;
pub mod view_model;
pub mod locale;
pub mod matcher;
pub mod fd_map;
pub mod report;
pub mod line;
pub mod script_text;
pub mod command_parse;

use vstd::prelude::*;

verus! {

/// The version of this runtime, as its package states it.
pub fn version() -> (v: &'static str)
    ensures
        v@ == seq!['0', '.', '1', '.', '0'],
{
    proof {
        reveal_strlit("0.1.0");
    }
    "0.1.0"
}

} // verus!
