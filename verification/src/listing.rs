//! Listing the paths under a tag, as the lines of a report.

use crate::model::{paths_of, TagMap};
use crate::store::TagStore;
use vstd::prelude::*;
use vstd::string::*;

verus! {

/// What `{:?}` writes for a string: the text between double quotes, with the
/// characters that `str`'s `Debug` escapes written as their escapes.
pub uninterp spec fn debug_form(text: Seq<char>) -> Seq<char>;

/// Formats `text` with `{:?}`, that is with `<str as Debug>::fmt`. The result
/// depends on the characters of `text` alone; the contract names it and says
/// nothing more of it.
#[verifier::external_body]
fn debug_text(text: &String) -> (quoted: String)
    ensures
        quoted@ == debug_form(text@),
{
    format!("{:?}", text)
}

/// The line that reports that no path carries a tag, around the tag as it
/// is quoted.
pub open spec fn no_items_around(quoted: Seq<char>) -> Seq<char> {
    "No items tagged with \""@ + quoted + "\""@
}

/// The line that reports that no path carries `tag`.
pub open spec fn no_items_line(tag: Seq<char>) -> Seq<char> {
    no_items_around(debug_form(tag))
}

/// The report on `tag`: the paths under it, one to a line and in their order,
/// or, where there is none, the one line that says so.
pub open spec fn listing(m: TagMap, tag: Seq<char>) -> Seq<Seq<char>> {
    if paths_of(m, tag).len() > 0 {
        paths_of(m, tag)
    } else {
        seq![no_items_line(tag)]
    }
}

/// Writes the line that reports that no path carries a tag, around the tag
/// as it is quoted.
pub fn no_items(quoted: &str) -> (line: String)
    ensures
        line@ == no_items_around(quoted@),
{
    let mut line = "No items tagged with \"".to_owned();
    line.append(quoted);
    line.append("\"");
    line
}

/// The lines to print for `tag`: its paths as they are, or the line that says
/// that there is none. The store is left as it is.
pub fn ls(tag_map: &TagStore, tag: &String) -> (lines: Vec<String>)
    ensures
        lines.deep_view() == listing(tag_map@, tag@),
{
    if let Some(paths) = tag_map.get(tag) {
        if !paths.is_empty() {
            let lines = paths.clone();
            assert(lines.deep_view() =~= paths.deep_view());
            return lines;
        }
    }
    let mut lines: Vec<String> = Vec::new();
    lines.push(no_items(debug_text(tag).as_str()));
    assert(lines.deep_view() =~= seq![no_items_line(tag@)]);
    lines
}

} // verus!
