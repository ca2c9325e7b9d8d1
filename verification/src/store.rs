//! The tag store and the operations that change it.

use crate::model::{
    distinct_tags, from_pairs, has_tag, lemma_from_pairs_count, lemma_from_pairs_keys,
    lemma_from_pairs_push, lemma_from_pairs_update, lemma_from_pairs_values, lemma_tagged_next,
    lemma_tagged_one, lemma_untagged_next, lemma_untagged_one, other_than, tagged, untagged,
    without_path, TagMap,
};
use vstd::prelude::*;

verus! {

/// A tag store: for each tag the paths that carry it, in the order in which
/// they were attached. Its view is the [`TagMap`] it stands for.
pub struct TagStore {
    entries: Vec<(String, Vec<String>)>,
}

impl View for TagStore {
    type V = TagMap;

    closed spec fn view(&self) -> TagMap {
        from_pairs(self.entries.deep_view())
    }
}

impl TagStore {
    /// Each tag has one entry.
    #[verifier::type_invariant]
    spec fn one_entry_per_tag(self) -> bool {
        distinct_tags(self.entries.deep_view())
    }

    /// The store without any tag.
    pub fn new() -> (store: Self)
        ensures
            store@ == Map::<Seq<char>, Seq<Seq<char>>>::empty(),
    {
        TagStore { entries: Vec::new() }
    }

    /// The paths under `tag`, or `None` where the store does not know `tag`.
    pub fn get(&self, tag: &String) -> (paths: Option<&Vec<String>>)
        ensures
            match paths {
                Some(found) => self@.contains_key(tag@) && found.deep_view() == self@[tag@],
                None => !self@.contains_key(tag@),
            },
    {
        proof {
            use_type_invariant(self);
            lemma_from_pairs_keys(self.entries.deep_view(), tag@);
            lemma_from_pairs_values(self.entries.deep_view());
        }
        match find(&self.entries, tag) {
            Some(i) => Some(&self.entries[i].1),
            None => None,
        }
    }

    /// The store that a list of entries stands for, each entry a tag with
    /// its paths. Where a tag occurs in more than one entry, the last of them
    /// counts.
    pub fn from_entries(entries: &Vec<(String, Vec<String>)>) -> (store: Self)
        ensures
            store@ == from_pairs(entries.deep_view()),
    {
        let ghost all = entries.deep_view();
        let mut kept: Vec<(String, Vec<String>)> = Vec::new();
        let mut i: usize = 0;
        while i < entries.len()
            invariant
                i <= entries.len(),
                all == entries.deep_view(),
                distinct_tags(kept.deep_view()),
                from_pairs(kept.deep_view()) == from_pairs(all.take(i as int)),
            decreases entries.len() - i,
        {
            let tag = entries[i].0.clone();
            let paths = entries[i].1.clone();
            proof {
                assert(all.take(i + 1).drop_last() =~= all.take(i as int));
            }
            put(&mut kept, tag, paths);
            i += 1;
        }
        proof {
            assert(all.take(entries.len() as int) =~= all);
        }
        TagStore { entries: kept }
    }

    /// The entries of the store, each tag once with its paths.
    pub fn entries(&self) -> (entries: &Vec<(String, Vec<String>)>)
        ensures
            distinct_tags(entries.deep_view()),
            from_pairs(entries.deep_view()) == self@,
    {
        proof {
            use_type_invariant(self);
        }
        &self.entries
    }

    /// The number of tags that the store knows.
    pub fn len(&self) -> (n: usize)
        ensures
            n == self@.dom().len(),
            self@.dom().finite(),
    {
        proof {
            use_type_invariant(self);
            lemma_from_pairs_count(self.entries.deep_view());
        }
        self.entries.len()
    }

    /// Whether the store knows no tag.
    pub fn is_empty(&self) -> (empty: bool)
        ensures
            empty == (self@ == Map::<Seq<char>, Seq<Seq<char>>>::empty()),
    {
        proof {
            use_type_invariant(self);
            let pairs = self.entries.deep_view();
            if pairs.len() > 0 {
                lemma_from_pairs_keys(pairs, pairs[0].0);
            }
        }
        self.entries.len() == 0
    }
}

/// The index of the entry for `tag`, if there is one.
fn find(entries: &Vec<(String, Vec<String>)>, tag: &String) -> (found: Option<usize>)
    ensures
        match found {
            Some(i) => i < entries.len() && entries.deep_view()[i as int].0 == tag@,
            None => !has_tag(entries.deep_view(), tag@),
        },
{
    let mut i: usize = 0;
    while i < entries.len()
        invariant
            i <= entries.len(),
            forall|k: int| 0 <= k < i ==> (#[trigger] entries.deep_view()[k]).0 != tag@,
        decreases entries.len() - i,
    {
        if entries[i].0 == *tag {
            return Some(i);
        }
        i += 1;
    }
    None
}

/// Whether `path` is among `paths`.
fn holds(paths: &Vec<String>, path: &String) -> (found: bool)
    ensures
        found == paths.deep_view().contains(path@),
{
    let mut i: usize = 0;
    while i < paths.len()
        invariant
            i <= paths.len(),
            forall|k: int| 0 <= k < i ==> #[trigger] paths.deep_view()[k] != path@,
        decreases paths.len() - i,
    {
        if paths[i] == *path {
            assert(paths.deep_view()[i as int] == path@);
            return true;
        }
        i += 1;
    }
    false
}

/// Attaches `path` to `tag`.
fn attach(entries: &mut Vec<(String, Vec<String>)>, path: &String, tag: &String)
    requires
        distinct_tags(old(entries).deep_view()),
    ensures
        distinct_tags(final(entries).deep_view()),
        from_pairs(final(entries).deep_view()) == tagged(
            from_pairs(old(entries).deep_view()),
            path@,
            seq![tag@],
        ),
{
    let ghost before = entries.deep_view();
    proof {
        lemma_tagged_one(from_pairs(before), path@, tag@);
        lemma_from_pairs_keys(before, tag@);
        lemma_from_pairs_values(before);
    }
    match find(entries, tag) {
        Some(i) => {
            if !holds(&entries[i].1, path) {
                entries[i].1.push(path.clone());
                proof {
                    let paths = before[i as int].1.push(path@);
                    lemma_from_pairs_update(before, i as int, paths);
                    assert(entries.deep_view()[i as int].1 =~= paths);
                    assert(entries.deep_view() =~= before.update(i as int, (tag@, paths)));
                }
            }
        },
        None => {
            let mut paths: Vec<String> = Vec::new();
            paths.push(path.clone());
            entries.push((tag.clone(), paths));
            proof {
                lemma_from_pairs_push(before, tag@, seq![path@]);
                assert(paths.deep_view() =~= seq![path@]);
                assert(entries.deep_view() =~= before.push((tag@, seq![path@])));
            }
        },
    }
}

/// The paths of `paths` that are not `path`, in their order.
fn others(paths: &Vec<String>, path: &String) -> (kept: Vec<String>)
    ensures
        kept.deep_view() == without_path(paths.deep_view(), path@),
{
    let ghost all = paths.deep_view();
    let mut kept: Vec<String> = Vec::new();
    let mut i: usize = 0;
    while i < paths.len()
        invariant
            i <= paths.len(),
            all == paths.deep_view(),
            kept.deep_view() == without_path(all.take(i as int), path@),
        decreases paths.len() - i,
    {
        let ghost sofar = kept.deep_view();
        if paths[i] != *path {
            kept.push(paths[i].clone());
            proof {
                assert(kept.deep_view() =~= sofar.push(all[i as int]));
            }
        }
        proof {
            assert(all.take(i + 1) =~= all.take(i as int).push(all[i as int]));
            all.take(i as int).lemma_filter_push(all[i as int], other_than(path@));
        }
        i += 1;
    }
    proof {
        assert(all.take(paths.len() as int) =~= all);
    }
    kept
}

/// Detaches `path` from `tag`.
fn detach(entries: &mut Vec<(String, Vec<String>)>, path: &String, tag: &String)
    requires
        distinct_tags(old(entries).deep_view()),
    ensures
        distinct_tags(final(entries).deep_view()),
        from_pairs(final(entries).deep_view()) == untagged(
            from_pairs(old(entries).deep_view()),
            path@,
            seq![tag@],
        ),
{
    let ghost before = entries.deep_view();
    proof {
        lemma_untagged_one(from_pairs(before), path@, tag@);
        lemma_from_pairs_keys(before, tag@);
        lemma_from_pairs_values(before);
    }
    match find(entries, tag) {
        Some(i) => {
            let kept = others(&entries[i].1, path);
            entries[i].1 = kept;
            proof {
                let paths = without_path(before[i as int].1, path@);
                lemma_from_pairs_update(before, i as int, paths);
                assert(entries.deep_view() =~= before.update(i as int, (tag@, paths)));
            }
        },
        None => {},
    }
}

/// Puts `paths` under `tag`, in the place of what was there.
fn put(entries: &mut Vec<(String, Vec<String>)>, tag: String, paths: Vec<String>)
    requires
        distinct_tags(old(entries).deep_view()),
    ensures
        distinct_tags(final(entries).deep_view()),
        from_pairs(final(entries).deep_view()) == from_pairs(old(entries).deep_view()).insert(
            tag@,
            paths.deep_view(),
        ),
{
    let ghost before = entries.deep_view();
    match find(entries, &tag) {
        Some(i) => {
            entries[i].1 = paths;
            proof {
                lemma_from_pairs_update(before, i as int, paths.deep_view());
                assert(entries.deep_view() =~= before.update(i as int, (tag@, paths.deep_view())));
            }
        },
        None => {
            entries.push((tag, paths));
            proof {
                lemma_from_pairs_push(before, tag@, paths.deep_view());
                assert(entries.deep_view() =~= before.push((tag@, paths.deep_view())));
            }
        },
    }
}

/// Attaches `path` to each tag of `tags`. A tag that the store did not know is
/// created with `path` as its one path; under a tag that holds `path` already
/// nothing changes; otherwise `path` joins the end of the tag's paths.
pub fn add_tag(tag_map: &mut TagStore, path: &String, tags: &Vec<String>)
    ensures
        final(tag_map)@ == tagged(old(tag_map)@, path@, tags.deep_view()),
{
    let ghost start = tag_map@;
    let ghost names = tags.deep_view();
    proof {
        use_type_invariant(&*tag_map);
    }
    // The entries are taken out while they change and put back at the end, so
    // that the store in place has one entry per tag at every step.
    let mut entries: Vec<(String, Vec<String>)> = Vec::new();
    std::mem::swap(&mut tag_map.entries, &mut entries);
    let mut i: usize = 0;
    while i < tags.len()
        invariant
            i <= tags.len(),
            names == tags.deep_view(),
            distinct_tags(entries.deep_view()),
            from_pairs(entries.deep_view()) == tagged(start, path@, names.take(i as int)),
        decreases tags.len() - i,
    {
        attach(&mut entries, path, &tags[i]);
        proof {
            lemma_tagged_next(start, path@, names, i as int);
        }
        i += 1;
    }
    proof {
        assert(names.take(tags.len() as int) =~= names);
    }
    tag_map.entries = entries;
}

/// Detaches `path` from each tag of `tags`: under each of them that the store
/// knows, every occurrence of `path` goes. A tag that the store does not know
/// is passed over, and a tag whose last path went stays, with no path.
pub fn rm_tag(tag_map: &mut TagStore, path: &String, tags: &Vec<String>)
    ensures
        final(tag_map)@ == untagged(old(tag_map)@, path@, tags.deep_view()),
{
    let ghost start = tag_map@;
    let ghost names = tags.deep_view();
    proof {
        use_type_invariant(&*tag_map);
    }
    // As in `add_tag`, the entries are taken out while they change.
    let mut entries: Vec<(String, Vec<String>)> = Vec::new();
    std::mem::swap(&mut tag_map.entries, &mut entries);
    let mut i: usize = 0;
    while i < tags.len()
        invariant
            i <= tags.len(),
            names == tags.deep_view(),
            distinct_tags(entries.deep_view()),
            from_pairs(entries.deep_view()) == untagged(start, path@, names.take(i as int)),
        decreases tags.len() - i,
    {
        detach(&mut entries, path, &tags[i]);
        proof {
            lemma_untagged_next(start, path@, names, i as int);
        }
        i += 1;
    }
    proof {
        assert(names.take(tags.len() as int) =~= names);
    }
    tag_map.entries = entries;
}

} // verus!
