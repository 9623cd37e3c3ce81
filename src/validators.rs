//! The concrete rule checks, one per rule code.
use vstd::prelude::*;

use crate::model::{node_error, ValidationError, Validator};
use crate::rule::RuleCode;
use crate::text::{lower_of, node_lowercase_contains, node_lowercase_eq, node_text, occurs_in, same_text};
use crate::grammar::{FIELD_IDENTIFIER, IDENTIFIER, INDEX_EXPRESSION, UNSAFE};
use crate::tree::SyntaxTree;

verus! {

/// Flags every `unsafe` keyword.
pub struct UnsafeCodeValidator;

impl Validator for UnsafeCodeValidator {
    open spec fn outcome(&self, t: &SyntaxTree, i: int, source: Seq<char>) -> Option<ValidationError> {
        if t.nodes@[i].kind@ == UNSAFE@ {
            Some(node_error(t, i, RuleCode::Unsafe))
        } else {
            None
        }
    }

    fn validate(&self, t: &SyntaxTree, i: usize, source: &str) -> (r: Result<(), ValidationError>) {
        if same_text(t.node(i).kind, UNSAFE) {
            return Err(ValidationError::from_node(t, i, RuleCode::Unsafe.rule()));
        }
        Ok(())
    }
}

/// Flags every identifier whose lowercase text contains `unsafe`.
pub struct UseUnsafeValidator;

impl Validator for UseUnsafeValidator {
    open spec fn outcome(&self, t: &SyntaxTree, i: int, source: Seq<char>) -> Option<ValidationError> {
        if node_text(IDENTIFIER@, t, i, source) matches Some(x) && occurs_in(lower_of(x), "unsafe"@) {
            Some(node_error(t, i, RuleCode::UseUnsafe))
        } else {
            None
        }
    }

    fn validate(&self, t: &SyntaxTree, i: usize, source: &str) -> (r: Result<(), ValidationError>) {
        if node_lowercase_contains(IDENTIFIER, t, i, source, "unsafe") {
            Err(ValidationError::from_node(t, i, RuleCode::UseUnsafe.rule()))
        } else {
            Ok(())
        }
    }
}

/// Flags every method call named `unwrap`, in any letter case.
pub struct UnwrapCallValidator;

impl Validator for UnwrapCallValidator {
    open spec fn outcome(&self, t: &SyntaxTree, i: int, source: Seq<char>) -> Option<ValidationError> {
        if node_text(FIELD_IDENTIFIER@, t, i, source) matches Some(x) && lower_of(x) == "unwrap"@ {
            Some(node_error(t, i, RuleCode::Unwrap))
        } else {
            None
        }
    }

    fn validate(&self, t: &SyntaxTree, i: usize, source: &str) -> (r: Result<(), ValidationError>) {
        if node_lowercase_eq(FIELD_IDENTIFIER, t, i, source, "unwrap") {
            Err(ValidationError::from_node(t, i, RuleCode::Unwrap.rule()))
        } else {
            Ok(())
        }
    }
}

/// Flags every method call named `expect`, in any letter case.
pub struct ExpectCallValidator;

impl Validator for ExpectCallValidator {
    open spec fn outcome(&self, t: &SyntaxTree, i: int, source: Seq<char>) -> Option<ValidationError> {
        if node_text(FIELD_IDENTIFIER@, t, i, source) matches Some(x) && lower_of(x) == "expect"@ {
            Some(node_error(t, i, RuleCode::Expect))
        } else {
            None
        }
    }

    fn validate(&self, t: &SyntaxTree, i: usize, source: &str) -> (r: Result<(), ValidationError>) {
        if node_lowercase_eq(FIELD_IDENTIFIER, t, i, source, "expect") {
            Err(ValidationError::from_node(t, i, RuleCode::Expect.rule()))
        } else {
            Ok(())
        }
    }
}

/// Flags every index expression.
pub struct IndexExpressionValidator;

impl Validator for IndexExpressionValidator {
    open spec fn outcome(&self, t: &SyntaxTree, i: int, source: Seq<char>) -> Option<ValidationError> {
        if t.nodes@[i].kind@ == INDEX_EXPRESSION@ {
            Some(node_error(t, i, RuleCode::IndexExpression))
        } else {
            None
        }
    }

    fn validate(&self, t: &SyntaxTree, i: usize, source: &str) -> (r: Result<(), ValidationError>) {
        if !same_text(t.node(i).kind, INDEX_EXPRESSION) {
            return Ok(());
        }
        Err(ValidationError::from_node(t, i, RuleCode::IndexExpression.rule()))
    }
}

/// One of the built-in checks.
pub enum RuleValidator {
    UnsafeCode(UnsafeCodeValidator),
    UseUnsafe(UseUnsafeValidator),
    UnwrapCall(UnwrapCallValidator),
    ExpectCall(ExpectCallValidator),
    IndexExpression(IndexExpressionValidator),
}

impl Validator for RuleValidator {
    open spec fn outcome(&self, t: &SyntaxTree, i: int, source: Seq<char>) -> Option<ValidationError> {
        match self {
            RuleValidator::UnsafeCode(v) => v.outcome(t, i, source),
            RuleValidator::UseUnsafe(v) => v.outcome(t, i, source),
            RuleValidator::UnwrapCall(v) => v.outcome(t, i, source),
            RuleValidator::ExpectCall(v) => v.outcome(t, i, source),
            RuleValidator::IndexExpression(v) => v.outcome(t, i, source),
        }
    }

    fn validate(&self, t: &SyntaxTree, i: usize, source: &str) -> (r: Result<(), ValidationError>) {
        match self {
            RuleValidator::UnsafeCode(v) => v.validate(t, i, source),
            RuleValidator::UseUnsafe(v) => v.validate(t, i, source),
            RuleValidator::UnwrapCall(v) => v.validate(t, i, source),
            RuleValidator::ExpectCall(v) => v.validate(t, i, source),
            RuleValidator::IndexExpression(v) => v.validate(t, i, source),
        }
    }
}

/// The built-in checks, one per rule code, in catalog order.
pub open spec fn all_validators_spec() -> Seq<RuleValidator> {
    seq![
        RuleValidator::UnsafeCode(UnsafeCodeValidator),
        RuleValidator::UseUnsafe(UseUnsafeValidator),
        RuleValidator::UnwrapCall(UnwrapCallValidator),
        RuleValidator::ExpectCall(ExpectCallValidator),
        RuleValidator::IndexExpression(IndexExpressionValidator),
    ]
}

/// Every built-in check, in catalog order.
pub fn get_all_validators() -> (r: Vec<RuleValidator>)
    ensures
        r@ == all_validators_spec(),
{
    let r = vec![
        RuleValidator::UnsafeCode(UnsafeCodeValidator),
        RuleValidator::UseUnsafe(UseUnsafeValidator),
        RuleValidator::UnwrapCall(UnwrapCallValidator),
        RuleValidator::ExpectCall(ExpectCallValidator),
        RuleValidator::IndexExpression(IndexExpressionValidator),
    ];
    proof {
        assert(r@ =~= all_validators_spec());
    }
    r
}

} // verus!
