//! The parts of the tree-sitter runtime and of its Rust grammar that the
//! library relies on, each with what it is trusted to do.
use vstd::prelude::*;

verus! {

/// `tree_sitter::Parser`, carried opaque.
#[verifier::external_type_specification]
#[verifier::external_body]
pub struct ExParser(tree_sitter::Parser);

/// `tree_sitter::Tree`, carried opaque.
#[verifier::external_type_specification]
#[verifier::external_body]
pub struct ExTree(tree_sitter::Tree);

/// `tree_sitter::Language`, carried opaque.
#[verifier::external_type_specification]
#[verifier::external_body]
pub struct ExLanguage(tree_sitter::Language);

/// `tree_sitter::LanguageError`, carried opaque.
#[verifier::external_type_specification]
#[verifier::external_body]
pub struct ExLanguageError(tree_sitter::LanguageError);

/// `tree_sitter::Node`, read only through the items below.
#[verifier::external_type_specification]
#[verifier::external_body]
pub struct ExNode<'tree>(tree_sitter::Node<'tree>);

/// `tree_sitter::TreeCursor`, moved only through the items below.
#[verifier::external_type_specification]
#[verifier::external_body]
pub struct ExTreeCursor<'a>(tree_sitter::TreeCursor<'a>);

/// Relies on `tree_sitter::Parser::new`: a parser with no language yet.
pub assume_specification[ tree_sitter::Parser::new ]() -> tree_sitter::Parser;

/// Relies on `tree_sitter_rust::language`: the generated Rust grammar.
pub assume_specification[ tree_sitter_rust::language ]() -> tree_sitter::Language;

/// Relies on `tree_sitter::Parser::set_language`: fails only on a grammar of an
/// incompatible version.
pub assume_specification[ tree_sitter::Parser::set_language ](
    p: &mut tree_sitter::Parser,
    language: tree_sitter::Language,
) -> Result<(), tree_sitter::LanguageError>;

/// Relies on `tree_sitter::Tree::root_node`.
pub assume_specification<'tree>[ tree_sitter::Tree::root_node ](
    t: &'tree tree_sitter::Tree,
) -> tree_sitter::Node<'tree>;

/// Relies on `tree_sitter::Node::kind`: the node's grammar symbol.
pub assume_specification<'tree>[ tree_sitter::Node::<'tree>::kind ](
    n: &tree_sitter::Node<'tree>,
) -> &'static str;

/// Relies on `tree_sitter::Node::is_named`.
pub assume_specification<'tree>[ tree_sitter::Node::<'tree>::is_named ](
    n: &tree_sitter::Node<'tree>,
) -> bool;

/// Relies on `tree_sitter::Node::start_byte`.
pub assume_specification<'tree>[ tree_sitter::Node::<'tree>::start_byte ](
    n: &tree_sitter::Node<'tree>,
) -> usize;

/// Relies on `tree_sitter::Node::end_byte`.
pub assume_specification<'tree>[ tree_sitter::Node::<'tree>::end_byte ](
    n: &tree_sitter::Node<'tree>,
) -> usize;

/// Relies on `tree_sitter::Node::walk`: a cursor placed on the node.
pub assume_specification<'tree>[ tree_sitter::Node::<'tree>::walk ](
    n: &tree_sitter::Node<'tree>,
) -> tree_sitter::TreeCursor<'tree>;

/// Relies on `tree_sitter::TreeCursor::node`: the node under the cursor.
pub assume_specification<'a>[ tree_sitter::TreeCursor::<'a>::node ](
    c: &tree_sitter::TreeCursor<'a>,
) -> tree_sitter::Node<'a>;

/// Relies on `tree_sitter::TreeCursor::field_name`: the field of its parent
/// under which the node under the cursor stands, if any.
pub assume_specification<'a>[ tree_sitter::TreeCursor::<'a>::field_name ](
    c: &tree_sitter::TreeCursor<'a>,
) -> Option<&'static str>;

/// Relies on `tree_sitter::TreeCursor::goto_first_child`: moves to the first
/// child, telling whether there was one.
pub assume_specification<'a>[ tree_sitter::TreeCursor::<'a>::goto_first_child ](
    c: &mut tree_sitter::TreeCursor<'a>,
) -> bool;

/// Relies on `tree_sitter::TreeCursor::goto_next_sibling`: moves to the next
/// sibling, telling whether there was one.
pub assume_specification<'a>[ tree_sitter::TreeCursor::<'a>::goto_next_sibling ](
    c: &mut tree_sitter::TreeCursor<'a>,
) -> bool;

/// Relies on `tree_sitter::TreeCursor::goto_parent`: moves to the parent,
/// telling whether there was one.
pub assume_specification<'a>[ tree_sitter::TreeCursor::<'a>::goto_parent ](
    c: &mut tree_sitter::TreeCursor<'a>,
) -> bool;

/// Relies on `tree_sitter::Node::start_position`: row and column where the node starts.
#[verifier::external_body]
pub(crate) fn start_point(n: &tree_sitter::Node) -> (r: (usize, usize)) {
    let p = n.start_position();
    (p.row, p.column)
}

/// Relies on `tree_sitter::Node::end_position`: row and column where the node ends.
#[verifier::external_body]
pub(crate) fn end_point(n: &tree_sitter::Node) -> (r: (usize, usize)) {
    let p = n.end_position();
    (p.row, p.column)
}

/// Relies on `tree_sitter::Parser::parse`: a syntax tree of the text, or none
/// when the parser gives up.
#[verifier::external_body]
pub(crate) fn parse_text(p: &mut tree_sitter::Parser, text: &str) -> Option<tree_sitter::Tree> {
    p.parse(text, None)
}

} // verus!
