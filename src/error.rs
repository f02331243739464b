//! The errors of tokenizing, parsing and expanding.

use vstd::prelude::*;

verus! {

/// Why a command line is not well formed.
#[derive(Debug, PartialEq, Eq, Clone, Copy, Structural)]
pub enum SyntaxError {
    /// A quoted string lacks its closing quote.
    UnterminatedQuote,
    /// A `$(` lacks its closing `)`.
    UnterminatedSubstitution,
    /// A `$` is followed by neither a name nor `(`.
    StrayDollar,
    /// A redirection names no target.
    MissingRedirectTarget,
    /// The tokens `start..end` of a pipeline stage hold no command name.
    MissingCommand { start: usize, end: usize },
}

/// A construct of the shell language that is recognised but not supported.
#[derive(Debug, PartialEq, Eq, Clone, Copy, Structural)]
pub enum Feature {
    /// `&&`
    And,
    /// `||`
    Or,
    /// `&` (running a command in the background)
    Background,
    /// `( ... )`
    Subshell,
    /// `{ ... }`
    Grouping,
}

/// An expansion that this engine cannot resolve, since it needs a process or the file system.
#[derive(Debug, PartialEq, Eq, Clone, Copy, Structural)]
pub enum ExpansionKind {
    Command,
    Glob,
}

#[derive(Debug, PartialEq, Eq, Clone, Copy, Structural)]
pub enum Error {
    Syntax(SyntaxError),
    Unsupported(Feature),
    Unresolved(ExpansionKind),
    /// Command substitutions are nested deeper than the parser allows.
    NestingLimitExceeded,
}

} // verus!
