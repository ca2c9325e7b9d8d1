//! The store as text: one JSON object, each tag a key and its paths an array
//! of strings.

use crate::model::{distinct_tags, from_pairs, TagMap};
use crate::store::TagStore;
use std::collections::HashMap;
use vstd::prelude::*;

verus! {

/// The error of `serde_json`, carried as it is.
#[verifier::external_type_specification]
#[verifier::external_body]
pub struct ExJsonError(serde_json::Error);

/// What `serde_json::from_str` reads from `text` when asked for a map from
/// strings to lists of strings: that map, or `None` where it reports an error.
pub uninterp spec fn json_object(text: Seq<char>) -> Option<Map<Seq<char>, Seq<Seq<char>>>>;

/// Calls `serde_json::from_str` for a `HashMap<String, Vec<String>>` and
/// hands the map out as the list of its entries, in the order in which the
/// map is walked; an error becomes `None`. The contract names the map that
/// was read, claims that the entries are its entries, and says nothing of
/// which texts are read as which maps.
#[verifier::external_body]
fn parse_object(text: &str) -> (parsed: Option<Vec<(String, Vec<String>)>>)
    ensures
        match parsed {
            Some(entries) => json_object(text@) == Some(from_pairs(entries.deep_view())),
            None => json_object(text@) is None,
        },
{
    match serde_json::from_str::<HashMap<String, Vec<String>>>(text) {
        Ok(map) => Some(map.into_iter().collect()),
        Err(_) => None,
    }
}

/// Collects the entries, each with a tag of its own, in a
/// `HashMap<String, Vec<String>>` and calls `serde_json::to_string` on it.
/// The keys may be written in any order, so the text is not named.
///
/// The contract claims that a text comes back: `serde_json::to_string` is
/// documented to fail where a `Serialize` impl decides to fail or a map has
/// keys that are no strings, and here the keys are strings and the impls of
/// `HashMap`, `Vec` and `String` only hand on to the serializer, which writes
/// to a `Vec<u8>`. It claims of the text that it is not empty and that
/// `serde_json::from_str` reads from it the map that was written: a key for
/// each tag, and under it the tag's paths in their order.
#[verifier::external_body]
fn write_object(entries: &Vec<(String, Vec<String>)>) -> (written: Result<
    String,
    serde_json::Error,
>)
    requires
        distinct_tags(entries.deep_view()),
    ensures
        written is Ok,
        written matches Ok(text) ==> text@.len() > 0 && json_object(text@) == Some(
            from_pairs(entries.deep_view()),
        ),
{
    let map: HashMap<String, Vec<String>> = entries.iter().cloned().collect();
    serde_json::to_string(&map)
}

/// `text` is JSON text for the store `m`.
pub open spec fn spells(text: Seq<char>, m: TagMap) -> bool {
    text.len() > 0 && json_object(text) == Some(m)
}

/// The store that a file's contents stand for. Empty contents, which is also
/// what stands for a file that could not be read, and contents that are no
/// JSON object of the expected shape stand for the store without any tag.
pub open spec fn loaded(contents: Seq<char>) -> TagMap {
    if contents.len() == 0 {
        Map::empty()
    } else {
        match json_object(contents) {
            Some(m) => m,
            None => Map::empty(),
        }
    }
}

/// The JSON writer reported an error. For a store it reports none, so `save`
/// never returns this; it stands in the place of a panic.
#[derive(Debug)]
pub struct SaveError;

/// The store that a parse gave, or the store without any tag where the parse
/// failed. Where a tag occurs in more than one entry, the last of them counts.
pub fn restore(parsed: Option<Vec<(String, Vec<String>)>>) -> (store: TagStore)
    ensures
        store@ == match parsed {
            Some(entries) => from_pairs(entries.deep_view()),
            None => Map::empty(),
        },
{
    match parsed {
        Some(entries) => TagStore::from_entries(&entries),
        None => TagStore::new(),
    }
}

/// Reads the store from the contents of its file. This never fails: contents
/// that are empty or cannot be read as a store give the store without any
/// tag.
pub fn load(contents: &str) -> (store: TagStore)
    ensures
        store@ == loaded(contents@),
        contents@.len() == 0 ==> store@ == Map::<Seq<char>, Seq<Seq<char>>>::empty(),
        json_object(contents@) is None ==> store@ == Map::<Seq<char>, Seq<Seq<char>>>::empty(),
{
    if contents.is_empty() {
        TagStore::new()
    } else {
        restore(parse_object(contents))
    }
}

/// Writes the store as JSON text, the whole of it: one object with a key for
/// each tag, and under it the array of the tag's paths. Every store can be
/// written, and loading the text gives the store back.
pub fn save(tag_map: &TagStore) -> (saved: Result<String, SaveError>)
    ensures
        saved matches Ok(text) && spells(text@, tag_map@) && loaded(text@) == tag_map@,
{
    match write_object(tag_map.entries()) {
        Ok(text) => Ok(text),
        Err(_) => Err(SaveError),
    }
}

/// Saving a store and loading what was saved gives the same store: the same
/// tags, and under each the same paths in the same order.
pub proof fn lemma_saved_loads(text: Seq<char>, m: TagMap)
    requires
        spells(text, m),
    ensures
        loaded(text) == m,
{
}

} // verus!
