//! The command line of the interpreter: what to run.
use vstd::prelude::*;

verus! {

/// The parsed command line.
pub struct Cli {
    pub command: Commands,
}

/// The commands of the interpreter.
pub enum Commands {
    /// Evaluate an expression given on the command line, or the expressions of a file.
    Run(RunArgs),
    /// Start the interactive prompt.
    Repl(ReplArgs),
}

/// The options of the interactive prompt (none yet).
pub struct ReplArgs {}

/// What `run` evaluates: an expression, or a file of expressions.
pub struct RunArgs {
    pub expr: Option<String>,
    pub file: Option<String>,
}

} // verus!
