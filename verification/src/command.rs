//! One invocation: load the store, carry out one command, save the store.

use crate::json::{load, loaded, save, spells, SaveError};
use crate::listing::{listing, ls};
use crate::model::{tagged, untagged, TagMap};
use crate::store::{add_tag, rm_tag, TagStore};
use vstd::prelude::*;

verus! {

/// The name of the store's file, which lies in the user's home directory.
pub const STORE_FILE: &'static str = ".tags-rs.json";

/// What an invocation is asked to do.
pub enum Command {
    /// Attach each tag to the path.
    Tag { path: String, tags: Vec<String> },
    /// Detach each tag from the path.
    Untag { path: String, tags: Vec<String> },
    /// List the paths under the tag.
    Ls { tag: String },
}

/// The store after `command` was carried out on `m`. Listing changes nothing.
pub open spec fn applied(m: TagMap, command: Command) -> TagMap {
    match command {
        Command::Tag { path, tags } => tagged(m, path@, tags.deep_view()),
        Command::Untag { path, tags } => untagged(m, path@, tags.deep_view()),
        Command::Ls { tag } => m,
    }
}

/// The lines that `command` prints when carried out on `m`. Only listing
/// prints.
pub open spec fn output(m: TagMap, command: Command) -> Seq<Seq<char>> {
    match command {
        Command::Tag { path, tags } => Seq::empty(),
        Command::Untag { path, tags } => Seq::empty(),
        Command::Ls { tag } => listing(m, tag@),
    }
}

/// Carries out `command` on the store and gives the lines to print.
pub fn apply(tag_map: &mut TagStore, command: &Command) -> (lines: Vec<String>)
    ensures
        final(tag_map)@ == applied(old(tag_map)@, *command),
        lines.deep_view() == output(old(tag_map)@, *command),
{
    match command {
        Command::Tag { path, tags } => {
            add_tag(tag_map, path, tags);
            Vec::new()
        },
        Command::Untag { path, tags } => {
            rm_tag(tag_map, path, tags);
            Vec::new()
        },
        Command::Ls { tag } => ls(tag_map, tag),
    }
}

/// What an invocation leaves: the lines to print, and the text to write over
/// the store's file.
pub struct Outcome {
    pub lines: Vec<String>,
    pub saved: Result<String, SaveError>,
}

/// One invocation, from the contents of the store's file to what is to be
/// printed and written: the store is loaded, `command` is carried out on it,
/// and the store is saved, after a listing too.
pub fn run(contents: &str, command: &Command) -> (outcome: Outcome)
    ensures
        outcome.lines.deep_view() == output(loaded(contents@), *command),
        outcome.saved matches Ok(text) && spells(text@, applied(loaded(contents@), *command))
            && loaded(text@) == applied(loaded(contents@), *command),
{
    let mut tag_map = load(contents);
    let lines = apply(&mut tag_map, command);
    let saved = save(&tag_map);
    Outcome { lines, saved }
}

} // verus!
