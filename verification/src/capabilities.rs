//! The pure cores of the editor-facing capabilities: cross-reference
//! resolution, diagnostics, completion text arithmetic, and the ranking
//! helpers behind code insertion.

pub mod completion;
pub mod definition;
pub mod diagnostics;
