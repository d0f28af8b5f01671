//! The command line of the parser program, as plain values.
use vstd::prelude::*;

verus! {

/// What the program is asked to do.
#[derive(Clone, Copy, Debug, PartialEq, Eq)]
pub enum Action {
    /// Parse the given HTML file.
    Parse,
}

/// The arguments of the program.
#[derive(Clone, Debug)]
pub struct CommandLineArgs {
    pub action: Action,
    /// The path of the HTML file to parse.
    pub file: Option<String>,
}

} // verus!
