//! What holds of the operations on every store.

use crate::model::{
    lemma_with_path_twice, occurrences, other_than, paths_of, same_as, tagged, untagged,
    with_path, without_path, TagMap,
};
use vstd::prelude::*;

verus! {

/// A path that is not among `paths` occurs in it no times, and one that is
/// among them occurs at least once.
pub proof fn lemma_occurrences_contains(paths: Seq<Seq<char>>, path: Seq<char>)
    ensures
        paths.contains(path) <==> occurrences(paths, path) >= 1,
    decreases paths.len(),
{
    reveal(Seq::filter);
    if paths.len() > 0 {
        let init = paths.drop_last();
        lemma_occurrences_contains(init, path);
        if init.contains(path) {
            let k = choose|k: int| 0 <= k < init.len() && init[k] == path;
            assert(paths[k] == path);
        }
        if paths.contains(path) && paths.last() != path {
            let k = choose|k: int| 0 <= k < paths.len() && paths[k] == path;
            assert(init[k] == path);
        }
        if paths.last() == path {
            assert(paths[paths.len() - 1] == path);
        }
    }
}

/// Attaching a path leaves it among the paths as often as it was there, and
/// once if it was not there.
pub proof fn lemma_occurrences_with_path(paths: Seq<Seq<char>>, path: Seq<char>)
    ensures
        occurrences(with_path(paths, path), path) == if paths.contains(path) {
            occurrences(paths, path)
        } else {
            1
        },
{
    lemma_occurrences_contains(paths, path);
    paths.lemma_filter_push(path, same_as(path));
}

/// Attaching a path to no tag changes nothing.
pub proof fn lemma_tag_none(m: TagMap, path: Seq<char>)
    ensures
        tagged(m, path, Seq::empty()) == m,
{
    assert(tagged(m, path, Seq::empty()) =~= m);
}

/// Detaching a path from no tag changes nothing.
pub proof fn lemma_untag_none(m: TagMap, path: Seq<char>)
    ensures
        untagged(m, path, Seq::empty()) == m,
{
    assert(untagged(m, path, Seq::empty()) =~= m);
}

/// Attaching a path to the same tags a second time changes nothing.
pub proof fn lemma_tag_again(m: TagMap, path: Seq<char>, tags: Seq<Seq<char>>)
    ensures
        tagged(tagged(m, path, tags), path, tags) == tagged(m, path, tags),
{
    let once = tagged(m, path, tags);
    let twice = tagged(once, path, tags);
    assert forall|t: Seq<char>| once.contains_key(t) implies twice[t] == once[t] by {
        lemma_with_path_twice(paths_of(m, t), path);
    }
    assert(twice =~= once);
}

/// A path that was attached to a tag twice occurs once under that tag,
/// provided that it did not occur there more than once before.
pub proof fn lemma_tag_twice_occurs_once(
    m: TagMap,
    path: Seq<char>,
    first: Seq<Seq<char>>,
    second: Seq<Seq<char>>,
    tag: Seq<char>,
)
    requires
        first.contains(tag),
        second.contains(tag),
        occurrences(paths_of(m, tag), path) <= 1,
    ensures
        tagged(tagged(m, path, first), path, second).contains_key(tag),
        occurrences(tagged(tagged(m, path, first), path, second)[tag], path) == 1,
{
    let before = paths_of(m, tag);
    lemma_with_path_twice(before, path);
    lemma_occurrences_with_path(before, path);
    lemma_occurrences_contains(before, path);
}

/// Detaching a path from tags none of which holds it changes nothing. A tag
/// that the store does not know holds no path.
pub proof fn lemma_untag_absent(m: TagMap, path: Seq<char>, tags: Seq<Seq<char>>)
    requires
        forall|i: int| 0 <= i < tags.len() ==> !paths_of(m, #[trigger] tags[i]).contains(path),
    ensures
        untagged(m, path, tags) == m,
{
    assert forall|t: Seq<char>| m.contains_key(t) && tags.contains(t) implies without_path(
        m[t],
        path,
    ) == m[t] by {
        let i = choose|i: int| 0 <= i < tags.len() && tags[i] == t;
        assert(!paths_of(m, tags[i]).contains(path));
        lemma_not_held_stays(m[t], path);
    }
    assert(untagged(m, path, tags) =~= m);
}

/// Paths that do not hold `path` are the same without it.
pub proof fn lemma_not_held_stays(paths: Seq<Seq<char>>, path: Seq<char>)
    requires
        !paths.contains(path),
    ensures
        without_path(paths, path) == paths,
    decreases paths.len(),
{
    reveal(Seq::filter);
    if paths.len() > 0 {
        let init = paths.drop_last();
        assert(paths[paths.len() - 1] != path);
        assert forall|k: int| 0 <= k < init.len() implies init[k] != path by {
            assert(paths[k] == init[k]);
        }
        lemma_not_held_stays(init, path);
        assert(init.push(paths.last()) =~= paths);
    }
}

/// Detaching never takes a tag out of the store.
pub proof fn lemma_untag_keeps_tags(m: TagMap, path: Seq<char>, tags: Seq<Seq<char>>)
    ensures
        untagged(m, path, tags).dom() == m.dom(),
{
    assert(untagged(m, path, tags).dom() =~= m.dom());
}

/// A tag that was attached to a path and detached from it again is still in
/// the store, with the paths that it held before except that path. A tag that
/// the store did not know before is there with no path.
pub proof fn lemma_tag_then_untag(
    m: TagMap,
    path: Seq<char>,
    attached: Seq<Seq<char>>,
    detached: Seq<Seq<char>>,
    tag: Seq<char>,
)
    requires
        attached.contains(tag),
        detached.contains(tag),
    ensures
        untagged(tagged(m, path, attached), path, detached).contains_key(tag),
        untagged(tagged(m, path, attached), path, detached)[tag] == without_path(
            paths_of(m, tag),
            path,
        ),
        !m.contains_key(tag) ==> untagged(tagged(m, path, attached), path, detached)[tag]
            == Seq::<Seq<char>>::empty(),
{
    let before = paths_of(m, tag);
    if !before.contains(path) {
        before.lemma_filter_push(path, other_than(path));
    }
}

} // verus!
