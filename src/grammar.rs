//! Grammar symbols and field names of the Rust grammar that the checks look for.
use vstd::prelude::*;

verus! {

/// Grammar symbol of the `unsafe` keyword.
pub const UNSAFE: &'static str = "unsafe";

/// Grammar symbol of an index expression such as `a[0]`.
pub const INDEX_EXPRESSION: &'static str = "index_expression";

/// Grammar symbol of a plain identifier.
pub const IDENTIFIER: &'static str = "identifier";

/// Grammar symbol of the identifier after a `.`.
pub const FIELD_IDENTIFIER: &'static str = "field_identifier";

/// Grammar symbol of a `mod` item.
pub const MOD_ITEM: &'static str = "mod_item";

/// Grammar symbol of an outer attribute such as `#[cfg(test)]`.
pub const ATTRIBUTE_ITEM: &'static str = "attribute_item";

/// Grammar symbol of an attribute's content such as `cfg(test)`.
pub const META_ITEM: &'static str = "meta_item";

/// Field under which an attribute's argument list stands.
pub const ARGUMENTS: &'static str = "arguments";

} // verus!
