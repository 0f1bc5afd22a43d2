//! A project-wide index of commands, events and shared types exchanged
//! between a native backend and a web frontend, together with the pure
//! analysis passes that feed it: dialect selection, script-region
//! extraction, finding assembly, cross-reference resolution and
//! cross-type-system diagnostics.

pub mod capabilities;
pub mod file_processor;
pub mod indexer;
pub mod seq_util;
pub mod syntax;
pub mod text;
pub mod tree_parser;

use vstd::prelude::*;

verus! {

/// A zero-based line/column position inside a source file.
#[derive(Clone, Copy, Debug, PartialEq, Eq, Structural)]
pub struct Position {
    pub line: u32,
    pub character: u32,
}

/// A half-open source range: `start` inclusive, `end` exclusive.
#[derive(Clone, Copy, Debug, PartialEq, Eq, Structural)]
pub struct Range {
    pub start: Position,
    pub end: Position,
}

impl Range {
    /// The empty range at the origin.
    pub fn zero() -> (r: Range)
        ensures
            r.start.line == 0 && r.start.character == 0,
            r.end.line == 0 && r.end.character == 0,
    {
        Range { start: Position { line: 0, character: 0 }, end: Position { line: 0, character: 0 } }
    }
}

} // verus!
