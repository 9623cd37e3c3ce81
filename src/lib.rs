//! A pluggable lint engine over parsed Rust syntax trees: a filtered
//! pre-order traversal, composable subtree filters, per-node validators and
//! a driver that reports the first violation that is not suppressed.
use vstd::prelude::*;

pub mod driver;
pub mod filter;
pub mod filters;
pub mod grammar;
pub mod hint;
pub mod iter;
pub mod model;
pub mod rule;
pub mod sitter;
pub mod source;
pub mod text;
pub mod tree;
pub mod validators;

pub use driver::AllRulesValidator;
pub use filter::{AndFilter, Filter, NothingFilter};
pub use filters::{default_filter, get_all_filters, TestModuleFilter};
pub use iter::{walk_nodes, NodeIterator};
pub use model::{CodePosition, CodeRange, ValidationError, Validator};
pub use rule::{rules, Rule, RuleCode};
pub use source::{recur_validate, validate, SourceCode};
pub use text::{node_lowercase_contains, node_lowercase_eq};
pub use tree::{SyntaxNode, SyntaxTree};
pub use validators::{
    get_all_validators, ExpectCallValidator, IndexExpressionValidator, RuleValidator,
    UnsafeCodeValidator, UnwrapCallValidator, UseUnsafeValidator,
};
