//! A markdown-to-HTML converter.
//!
//! The library turns a markdown document, given as one string, into an HTML
//! fragment. It works in four stages: a segmenter splits the document into
//! raw blocks at blank lines, a classifier walks each raw block line by line
//! to decide its block type and build its body text, an inline formatter
//! rewrites emphasis, strikethrough and link spans inside non-code lines,
//! and a renderer wraps each block body in its block-level tag.
use vstd::prelude::*;

pub mod inline;
pub mod parser;

verus! {

/// Converts a markdown document, given as one string, into an HTML
/// fragment: no document wrapper, no escaping of characters already present
/// in the input.
pub fn to_html(markdown: &str) -> (html: String)
    ensures
        html@ == parser::md_html(markdown@),
{
    parser::parse(markdown)
}

/// True when `pattern` is a prefix of `s`, compared character by character.
pub fn begins_with(s: &str, pattern: &str) -> (r: bool)
    ensures
        r == inline::starts_with(s@, pattern@),
{
    let slen = s.unicode_len();
    let plen = pattern.unicode_len();
    if plen > slen {
        return false;
    }
    inline::occurs_check(s, pattern, 0, slen, plen)
}

} // verus!
