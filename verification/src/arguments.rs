//! The command-line surface as plain data: the values `main` decides from.
//! Argument parsing itself happens outside the library; these types carry
//! its outcome.

use vstd::prelude::*;

verus! {

/// The program's arguments: an optional project root directory and the
/// subcommand to run.
pub struct Arguments {
    pub project_root: Option<String>,
    pub command: Command,
}

/// The available subcommands.
pub enum Command {
    Generate(Generate),
}

/// Arguments of the generation subcommand: an optional output file path,
/// where `-` names standard output.
pub struct Generate {
    pub output_file: Option<String>,
}

} // verus!
