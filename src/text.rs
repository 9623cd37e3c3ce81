//! Reading the source text that a node spans, and comparing it.
use vstd::prelude::*;

use crate::tree::SyntaxTree;

verus! {

/// What `str::to_lowercase` makes of a text.
pub uninterp spec fn lower_of(s: Seq<char>) -> Seq<char>;

/// The number of bytes of a character in UTF-8.
pub open spec fn utf8_len(c: char) -> int {
    if (c as u32) < 0x80 {
        1
    } else if (c as u32) < 0x800 {
        2
    } else if (c as u32) < 0x10000 {
        3
    } else {
        4
    }
}

/// The byte offset in UTF-8 of the character at index `k` of `s`.
pub open spec fn byte_offset(s: Seq<char>, k: int) -> int
    decreases k,
{
    if k <= 0 {
        0
    } else {
        byte_offset(s, k - 1) + utf8_len(s[k - 1])
    }
}

/// The characters of `s` between the byte offsets `start` and `end`, or nothing
/// when the range is reversed, out of bounds, or cuts a character.
pub open spec fn text_between(s: Seq<char>, start: int, end: int) -> Option<Seq<char>> {
    if exists|i: int, j: int|
        0 <= i <= j <= s.len() && byte_offset(s, i) == start && byte_offset(s, j) == end {
        let (i, j) = choose|i: int, j: int|
            0 <= i <= j <= s.len() && byte_offset(s, i) == start && byte_offset(s, j) == end;
        Some(s.subrange(i, j))
    } else {
        None
    }
}

/// `p` occurs somewhere in `h`.
pub open spec fn occurs_in(h: Seq<char>, p: Seq<char>) -> bool {
    exists|k: int| 0 <= k && k + p.len() <= h.len() && #[trigger] h.subrange(k, k + p.len()) == p
}

/// Relies on `str::to_lowercase`: the lowercase form of a text, which depends
/// on its characters alone.
#[verifier::external_body]
pub(crate) fn lowercase(s: &str) -> (r: String)
    ensures
        r@ == lower_of(s@),
{
    s.to_lowercase()
}

/// Relies on `str::get` over a byte range: the piece of the text between two
/// character boundaries, or `None` when the range is reversed, out of bounds,
/// or cuts a character.
#[verifier::external_body]
pub(crate) fn text_slice<'a>(s: &'a str, start: usize, end: usize) -> (r: Option<&'a str>)
    ensures
        match r {
            Some(x) => text_between(s@, start as int, end as int) == Some(x@),
            None => text_between(s@, start as int, end as int) is None,
        },
{
    s.get(start..end)
}

/// Relies on `str::contains`: whether the pattern matches a sub-slice of the text.
#[verifier::external_body]
pub(crate) fn has_substring(h: &str, p: &str) -> (r: bool)
    ensures
        r == occurs_in(h@, p@),
{
    h.contains(p)
}

/// Whether two texts are the same.
pub fn same_text(a: &str, b: &str) -> (r: bool)
    ensures
        r == (a@ == b@),
{
    a.to_owned() == b.to_owned()
}

/// The text of node `i`, when the node has kind `kind` and its byte range
/// cuts out a piece of `source`.
pub open spec fn node_text(kind: Seq<char>, t: &SyntaxTree, i: int, source: Seq<char>) -> Option<Seq<char>> {
    if t.nodes@[i].kind@ == kind {
        text_between(source, t.nodes@[i].start_byte as int, t.nodes@[i].end_byte as int)
    } else {
        None
    }
}

/// The text of node `i` if it has kind `node_kind`.
pub fn get_text<'a>(node_kind: &str, t: &SyntaxTree, i: usize, source: &'a str) -> (r: Option<&'a str>)
    requires
        i < t.size(),
    ensures
        match r {
            Some(x) => node_text(node_kind@, t, i as int, source@) == Some(x@),
            None => node_text(node_kind@, t, i as int, source@) is None,
        },
{
    let node = t.node(i);
    if same_text(node.kind, node_kind) {
        text_slice(source, node.start_byte, node.end_byte)
    } else {
        None
    }
}

/// Whether node `i` has kind `node_kind` and a text whose lowercase form contains `pat`.
pub fn node_lowercase_contains(node_kind: &str, t: &SyntaxTree, i: usize, source: &str, pat: &str) -> (r: bool)
    requires
        i < t.size(),
    ensures
        r == (node_text(node_kind@, t, i as int, source@) matches Some(x) && occurs_in(lower_of(x), pat@)),
{
    match get_text(node_kind, t, i, source) {
        Some(ident) => {
            let lower = lowercase(ident);
            has_substring(lower.as_str(), pat)
        },
        None => false,
    }
}

/// Whether node `i` has kind `node_kind` and a text whose lowercase form is `s`.
pub fn node_lowercase_eq(node_kind: &str, t: &SyntaxTree, i: usize, source: &str, s: &str) -> (r: bool)
    requires
        i < t.size(),
    ensures
        r == (node_text(node_kind@, t, i as int, source@) matches Some(x) && lower_of(x) == s@),
{
    match get_text(node_kind, t, i, source) {
        Some(ident) => {
            let lower = lowercase(ident);
            same_text(lower.as_str(), s)
        },
        None => false,
    }
}

} // verus!
