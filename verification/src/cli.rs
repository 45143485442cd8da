//! The commands of the program.

use vstd::prelude::*;

verus! {

/// What the program was asked to do.
#[derive(Debug)]
pub struct Args {
    pub action: Action,
}

/// One command with its directories.
#[derive(Debug)]
pub enum Action {
    /// Build the site in `src` into `out`.
    Build { src: String, out: String },
    /// Build, then watch `src`, rebuild on change and serve `out`.
    Serve { src: String, out: String },
    /// Remove what a build left in `out`.
    Clean { out: String },
}

/// The source directory of a command that names none.
pub const DEFAULT_SRC: &'static str = "src";

/// The output directory of a command that names none.
pub const DEFAULT_OUT: &'static str = "dist";

impl Action {
    /// The output directory of the command.
    pub fn out_dir(&self) -> (out: &String)
        ensures
            out@ == (match self {
                Action::Build { out, .. } => out@,
                Action::Serve { out, .. } => out@,
                Action::Clean { out } => out@,
            }),
    {
        match self {
            Action::Build { out, .. } => out,
            Action::Serve { out, .. } => out,
            Action::Clean { out } => out,
        }
    }
}

} // verus!
