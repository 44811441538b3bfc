//! What the projection asks of the host it runs in.

use crate::diff::DiffHunk;
use crate::grep::GrepPlan;
use crate::message::{GrepFileEntry, InstructionBlock};
use vstd::prelude::*;

verus! {

/// What the host's row budget makes of an instruction segment.
#[derive(Debug, Clone, Copy, PartialEq, Eq, Structural)]
pub struct InstructionsPlan {
    /// Rows drawn.
    pub rows: usize,
    pub truncated: bool,
}

/// The layout and text services of the host. Nothing is taken for granted of
/// an answer: what the library makes of one is stated for every answer.
pub trait Host {
    /// Whether hiding that many lines is worth a truncation.
    fn should_truncate(&self, hidden: usize) -> bool;

    /// The spinner a style name stands for, if it is one.
    fn spinner_token(&self, name: &String) -> Option<String>;

    /// The rows the transcript draws for a grep result.
    fn plan_grep_layout(&self, entries: &Vec<GrepFileEntry>, limit: usize) -> GrepPlan;

    /// The hunks that lead from one text to another.
    fn compute_hunks(&self, before: &String, after: &String) -> Vec<DiffHunk>;

    /// The rows the transcript draws for an instruction segment.
    fn plan_instructions_layout(
        &self,
        blocks: &Vec<InstructionBlock>,
        limit: usize,
    ) -> InstructionsPlan;

    /// The header text of an instruction segment, and its annotation.
    fn instructions_header(&self, blocks: &Vec<InstructionBlock>) -> (String, Option<String>);

    /// The row budget of an instruction segment.
    fn instruction_limit(&self, expanded: bool) -> usize;
}

} // verus!
