//! Parsing Rust source into the library's syntax tree, and running checks on it.
use vstd::prelude::*;

use crate::driver::{all_violations, first_unsuppressed, AllRulesValidator};
use crate::filter::Filter;
use crate::iter::walk_of;
use crate::model::{as_result, ValidationError, Validator};
use crate::sitter::parse_text;
use crate::tree::{from_parsed, SyntaxTree};

verus! {

/// A parsed source file.
pub struct SourceCode {
    pub tree: SyntaxTree,
}

impl SourceCode {
    /// Parses Rust source text; `None` when the parser gives up or the tree
    /// nests deeper than the library takes.
    pub fn parse(source_code: &str) -> (r: Option<Self>)
        ensures
            r matches Some(s) ==> s.tree.wf(),
    {
        let mut parser = tree_sitter::Parser::new();
        match parser.set_language(tree_sitter_rust::language()) {
            Ok(()) => {},
            Err(_) => {
                return None;
            },
        }
        let parsed = match parse_text(&mut parser, source_code) {
            Some(p) => p,
            None => {
                return None;
            },
        };
        match from_parsed(&parsed) {
            Some(tree) => Some(SourceCode { tree }),
            None => None,
        }
    }

    /// The index of the root node.
    pub fn get_root_node(&self) -> (r: usize)
        ensures
            r == 0,
    {
        0
    }
}

/// The first violation that `validator` finds over the walk of the subtree of
/// `root` under `filter`, or success.
pub fn recur_validate<V: Validator, F: Filter>(
    t: &SyntaxTree,
    root: usize,
    source: &str,
    validator: V,
    filter: F,
) -> (r: Result<(), ValidationError>)
    requires
        t.wf(),
        root < t.size(),
    ensures
        r == as_result(
            first_unsuppressed(
                all_violations(seq![validator], t, walk_of(&filter, t, source@, root as int), source@),
                Seq::empty(),
            ),
        ),
{
    let ghost v = validator;
    let ghost f = filter;
    let driver = AllRulesValidator::with_validators(vec![validator], Vec::new(), filter);
    proof {
        assert(driver.suppressed() =~= Seq::<Seq<char>>::empty());
        assert(driver.checks() =~= seq![v]);
    }
    driver.validate(t, root, source)
}

/// Parses `source_code` and runs `validator` over the walk of the whole tree
/// under `filter`; `None` when the text cannot be parsed.
pub fn validate<V: Validator, F: Filter>(source_code: &str, validator: V, filter: F) -> (r: Option<
    Result<(), ValidationError>,
>)
    ensures
        r matches Some(res) ==> exists|t: SyntaxTree|
            t.wf() && res == as_result(
                first_unsuppressed(
                    all_violations(seq![validator], &t, walk_of(&filter, &t, source_code@, 0), source_code@),
                    Seq::empty(),
                ),
            ),
{
    match SourceCode::parse(source_code) {
        Some(source) => {
            let root = source.get_root_node();
            Some(recur_validate(&source.tree, root, source_code, validator, filter))
        },
        None => None,
    }
}

} // verus!
