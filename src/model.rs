use vstd::prelude::*;

use crate::rule::{rule_of, Rule, RuleCode};
use crate::tree::SyntaxTree;

verus! {

/// A zero-indexed (row, column) position in a source text.
#[derive(Debug, Clone, Copy, PartialEq, Eq, Structural)]
pub struct CodePosition {
    pub row: usize,
    pub column: usize,
}

impl CodePosition {
    /// The position with the given row and column.
    pub fn from_point(row: usize, column: usize) -> (r: Self)
        ensures
            r.row == row,
            r.column == column,
    {
        CodePosition { row, column }
    }
}

/// The start and end positions of a node's full extent.
#[derive(Debug, Clone, Copy, PartialEq, Eq, Structural)]
pub struct CodeRange {
    pub start: CodePosition,
    pub end: CodePosition,
}

impl CodeRange {
    /// The full extent of node `i`.
    pub fn from_node(t: &SyntaxTree, i: usize) -> (r: Self)
        requires
            i < t.size(),
        ensures
            r == t.nodes@[i as int].range,
    {
        t.node(i).range
    }
}

/// A rule violation: the range of the offending node and the rule it breaks.
#[derive(Debug, Clone, Copy)]
pub struct ValidationError {
    pub code_range: CodeRange,
    pub rule: Rule,
}

impl ValidationError {
    /// The violation of `rule` over `code_range`.
    pub fn new(code_range: CodeRange, rule: Rule) -> (r: Self)
        ensures
            r.code_range == code_range,
            r.rule == rule,
    {
        ValidationError { code_range, rule }
    }

    /// The violation of `rule` over the full extent of node `i`.
    pub fn from_node(t: &SyntaxTree, i: usize, rule: Rule) -> (r: Self)
        requires
            i < t.size(),
        ensures
            r.code_range == t.nodes@[i as int].range,
            r.rule == rule,
    {
        Self::new(CodeRange::from_node(t, i), rule)
    }
}

/// The violation of the catalog rule `code` at node `i`.
pub open spec fn node_error(t: &SyntaxTree, i: int, code: RuleCode) -> ValidationError {
    ValidationError { code_range: t.nodes@[i].range, rule: rule_of(code) }
}

/// A check outcome as a `Result`.
pub open spec fn as_result(o: Option<ValidationError>) -> Result<(), ValidationError> {
    match o {
        Some(e) => Err(e),
        None => Ok(()),
    }
}

/// A check of one node for one kind of violation.
pub trait Validator {
    /// The violation that the check finds at node `i`, if any.
    spec fn outcome(&self, t: &SyntaxTree, i: int, source: Seq<char>) -> Option<ValidationError>;

    /// Checks node `i` alone (not its subtree).
    fn validate(&self, t: &SyntaxTree, i: usize, source: &str) -> (r: Result<(), ValidationError>)
        requires
            t.wf(),
            i < t.size(),
        ensures
            r == as_result(self.outcome(t, i as int, source@)),
    ;
}

} // verus!
