//! The mathematical model of a tag store and of the operations on it.

use vstd::prelude::*;

verus! {

/// What a tag store is: a map from each tag name to the sequence of paths that
/// carry the tag, in the order in which they were attached. Names and paths
/// are plain text, compared character by character.
pub type TagMap = Map<Seq<char>, Seq<Seq<char>>>;

/// The paths under `tag`. A tag that is no key carries no path.
pub open spec fn paths_of(m: TagMap, tag: Seq<char>) -> Seq<Seq<char>> {
    if m.contains_key(tag) {
        m[tag]
    } else {
        Seq::empty()
    }
}

/// `paths` with `path` at its end, unless `path` is in it already.
pub open spec fn with_path(paths: Seq<Seq<char>>, path: Seq<char>) -> Seq<Seq<char>> {
    if paths.contains(path) {
        paths
    } else {
        paths.push(path)
    }
}

/// `paths` without any occurrence of `path`, the others in their order.
pub open spec fn without_path(paths: Seq<Seq<char>>, path: Seq<char>) -> Seq<Seq<char>> {
    paths.filter(other_than(path))
}

/// The test that a path is not `path`.
pub open spec fn other_than(path: Seq<char>) -> spec_fn(Seq<char>) -> bool {
    |p: Seq<char>| p != path
}

/// The test that a path is `path`.
pub open spec fn same_as(path: Seq<char>) -> spec_fn(Seq<char>) -> bool {
    |p: Seq<char>| p == path
}

/// How often `path` occurs in `paths`.
pub open spec fn occurrences(paths: Seq<Seq<char>>, path: Seq<char>) -> nat {
    paths.filter(same_as(path)).len()
}

/// The store `m` after `path` was attached to each tag of `tags`: a tag of
/// `tags` that was no key becomes one, and `path` joins the end of the paths
/// under each tag of `tags` that did not hold it. Every other tag keeps its
/// paths.
pub open spec fn tagged(m: TagMap, path: Seq<char>, tags: Seq<Seq<char>>) -> TagMap {
    Map::new(
        |t: Seq<char>| m.contains_key(t) || tags.contains(t),
        |t: Seq<char>|
            if tags.contains(t) {
                with_path(paths_of(m, t), path)
            } else {
                m[t]
            },
    )
}

/// The store `m` after `path` was detached from each tag of `tags`: the keys
/// stay as they are, and under each key that is in `tags` every occurrence of
/// `path` is gone. A tag whose last path left stays, with no path under it.
pub open spec fn untagged(m: TagMap, path: Seq<char>, tags: Seq<Seq<char>>) -> TagMap {
    Map::new(
        |t: Seq<char>| m.contains_key(t),
        |t: Seq<char>|
            if tags.contains(t) {
                without_path(m[t], path)
            } else {
                m[t]
            },
    )
}

/// The store that a list of entries stands for. Where a tag occurs in more
/// than one entry, the last of them counts.
pub open spec fn from_pairs(pairs: Seq<(Seq<char>, Seq<Seq<char>>)>) -> TagMap
    decreases pairs.len(),
{
    if pairs.len() == 0 {
        Map::empty()
    } else {
        from_pairs(pairs.drop_last()).insert(pairs.last().0, pairs.last().1)
    }
}

/// No tag occurs in two entries.
pub open spec fn distinct_tags(pairs: Seq<(Seq<char>, Seq<Seq<char>>)>) -> bool {
    forall|i: int, j: int| 0 <= i < j < pairs.len() ==> pairs[i].0 != pairs[j].0
}

/// Some entry of `pairs` has the tag `tag`.
pub open spec fn has_tag(pairs: Seq<(Seq<char>, Seq<Seq<char>>)>, tag: Seq<char>) -> bool {
    exists|i: int| 0 <= i < pairs.len() && (#[trigger] pairs[i]).0 == tag
}

/// The keys of `from_pairs(pairs)` are the tags of the entries.
pub proof fn lemma_from_pairs_keys(pairs: Seq<(Seq<char>, Seq<Seq<char>>)>, tag: Seq<char>)
    ensures
        from_pairs(pairs).contains_key(tag) <==> has_tag(pairs, tag),
    decreases pairs.len(),
{
    if pairs.len() > 0 {
        let init = pairs.drop_last();
        lemma_from_pairs_keys(init, tag);
        if has_tag(init, tag) {
            let i = choose|i: int| 0 <= i < init.len() && (#[trigger] init[i]).0 == tag;
            assert(pairs[i].0 == tag);
        }
        if has_tag(pairs, tag) && tag != pairs.last().0 {
            let i = choose|i: int| 0 <= i < pairs.len() && (#[trigger] pairs[i]).0 == tag;
            assert(init[i].0 == tag);
        }
        if tag == pairs.last().0 {
            assert(pairs[pairs.len() - 1].0 == tag);
        }
    }
}

/// Where no tag occurs twice, `from_pairs(pairs)` holds under each entry's
/// tag that entry's paths.
pub proof fn lemma_from_pairs_values(pairs: Seq<(Seq<char>, Seq<Seq<char>>)>)
    requires
        distinct_tags(pairs),
    ensures
        forall|i: int|
            0 <= i < pairs.len() ==> from_pairs(pairs).contains_key((#[trigger] pairs[i]).0)
                && from_pairs(pairs)[pairs[i].0] == pairs[i].1,
    decreases pairs.len(),
{
    if pairs.len() > 0 {
        let init = pairs.drop_last();
        assert(distinct_tags(init)) by {
            assert forall|i: int, j: int| 0 <= i < j < init.len() implies init[i].0 != init[j].0 by {
                assert(pairs[i].0 != pairs[j].0);
            }
        }
        lemma_from_pairs_values(init);
        assert forall|i: int| 0 <= i < pairs.len() implies from_pairs(pairs).contains_key(
            (#[trigger] pairs[i]).0,
        ) && from_pairs(pairs)[pairs[i].0] == pairs[i].1 by {
            if i < pairs.len() - 1 {
                assert(init[i].0 == pairs[i].0);
                assert(pairs[i].0 != pairs[pairs.len() - 1].0);
            }
        }
    }
}

/// Where no tag occurs twice, the store has as many keys as there are
/// entries.
pub proof fn lemma_from_pairs_count(pairs: Seq<(Seq<char>, Seq<Seq<char>>)>)
    requires
        distinct_tags(pairs),
    ensures
        from_pairs(pairs).dom().finite(),
        from_pairs(pairs).dom().len() == pairs.len(),
    decreases pairs.len(),
{
    if pairs.len() > 0 {
        let init = pairs.drop_last();
        assert forall|i: int, j: int| 0 <= i < j < init.len() implies init[i].0 != init[j].0 by {
            assert(pairs[i].0 != pairs[j].0);
        }
        lemma_from_pairs_count(init);
        lemma_from_pairs_keys(init, pairs.last().0);
        if has_tag(init, pairs.last().0) {
            let k = choose|k: int| 0 <= k < init.len() && (#[trigger] init[k]).0 == pairs.last().0;
            assert(pairs[k].0 != pairs[pairs.len() - 1].0);
        }
    }
}

/// Putting new paths in the place of an entry's paths puts them under the
/// entry's tag, and leaves each tag with one entry.
pub proof fn lemma_from_pairs_update(
    pairs: Seq<(Seq<char>, Seq<Seq<char>>)>,
    i: int,
    paths: Seq<Seq<char>>,
)
    requires
        distinct_tags(pairs),
        0 <= i < pairs.len(),
    ensures
        distinct_tags(pairs.update(i, (pairs[i].0, paths))),
        from_pairs(pairs.update(i, (pairs[i].0, paths))) == from_pairs(pairs).insert(
            pairs[i].0,
            paths,
        ),
{
    let after = pairs.update(i, (pairs[i].0, paths));
    let goal = from_pairs(pairs).insert(pairs[i].0, paths);
    assert forall|a: int, b: int| 0 <= a < b < after.len() implies after[a].0 != after[b].0 by {
        assert(pairs[a].0 != pairs[b].0);
    }
    lemma_from_pairs_values(pairs);
    lemma_from_pairs_values(after);
    assert forall|t: Seq<char>| from_pairs(after).contains_key(t) <==> goal.contains_key(t) by {
        lemma_from_pairs_keys(pairs, t);
        lemma_from_pairs_keys(after, t);
        if has_tag(pairs, t) {
            let k = choose|k: int| 0 <= k < pairs.len() && (#[trigger] pairs[k]).0 == t;
            assert(after[k].0 == t);
        }
        if has_tag(after, t) {
            let k = choose|k: int| 0 <= k < after.len() && (#[trigger] after[k]).0 == t;
            assert(pairs[k].0 == t);
        }
    }
    assert forall|t: Seq<char>| from_pairs(after).contains_key(t) implies from_pairs(after)[t]
        == goal[t] by {
        lemma_from_pairs_keys(after, t);
        let k = choose|k: int| 0 <= k < after.len() && (#[trigger] after[k]).0 == t;
        assert(pairs[k].0 == t);
    }
    assert(from_pairs(after) =~= goal);
}

/// An entry for a tag that has none yet goes to the end, and leaves each tag
/// with one entry.
pub proof fn lemma_from_pairs_push(
    pairs: Seq<(Seq<char>, Seq<Seq<char>>)>,
    tag: Seq<char>,
    paths: Seq<Seq<char>>,
)
    requires
        distinct_tags(pairs),
        !has_tag(pairs, tag),
    ensures
        distinct_tags(pairs.push((tag, paths))),
        from_pairs(pairs.push((tag, paths))) == from_pairs(pairs).insert(tag, paths),
{
    let after = pairs.push((tag, paths));
    assert(after.drop_last() =~= pairs);
    assert forall|a: int, b: int| 0 <= a < b < after.len() implies after[a].0 != after[b].0 by {
        if b < pairs.len() {
            assert(pairs[a].0 != pairs[b].0);
        } else {
            assert(pairs[a].0 != tag);
        }
    }
}

/// Attaching a path to one tag puts under that tag its paths with the path
/// among them, and leaves the other tags alone.
pub proof fn lemma_tagged_one(m: TagMap, path: Seq<char>, tag: Seq<char>)
    ensures
        tagged(m, path, seq![tag]) == m.insert(tag, with_path(paths_of(m, tag), path)),
{
    assert(seq![tag][0] == tag);
    assert(tagged(m, path, seq![tag]) =~= m.insert(tag, with_path(paths_of(m, tag), path)));
}

/// Detaching a path from one tag puts under that tag, where the store knows
/// it, its paths without the path, and leaves the other tags alone.
pub proof fn lemma_untagged_one(m: TagMap, path: Seq<char>, tag: Seq<char>)
    ensures
        untagged(m, path, seq![tag]) == if m.contains_key(tag) {
            m.insert(tag, without_path(m[tag], path))
        } else {
            m
        },
{
    assert(seq![tag][0] == tag);
    if m.contains_key(tag) {
        assert(untagged(m, path, seq![tag]) =~= m.insert(tag, without_path(m[tag], path)));
    } else {
        assert(untagged(m, path, seq![tag]) =~= m);
    }
}

/// Once attached, a path is there, and attaching it again changes nothing.
pub proof fn lemma_with_path_twice(paths: Seq<Seq<char>>, path: Seq<char>)
    ensures
        with_path(paths, path).contains(path),
        with_path(with_path(paths, path), path) == with_path(paths, path),
{
    if !paths.contains(path) {
        assert(paths.push(path)[paths.len() as int] == path);
    }
}

/// A tag is among the first `n + 1` of a list when it is among the first `n`
/// or is the one after them.
proof fn lemma_take_next_contains(tags: Seq<Seq<char>>, n: int, tag: Seq<char>)
    requires
        0 <= n < tags.len(),
    ensures
        tags.take(n + 1).contains(tag) <==> tags.take(n).contains(tag) || tag == tags[n],
{
    let done = tags.take(n);
    let next = tags.take(n + 1);
    assert(next[n] == tags[n]);
    if done.contains(tag) {
        let k = choose|k: int| 0 <= k < done.len() && done[k] == tag;
        assert(next[k] == tag);
    }
    if next.contains(tag) && tag != tags[n] {
        let k = choose|k: int| 0 <= k < next.len() && next[k] == tag;
        assert(done[k] == tag);
    }
}

/// Attaching a path to the tags of a list one after the other gives what
/// attaching it to the whole list gives: the store after the first `n + 1`
/// tags is the store after the first `n` with the path attached to the next.
pub proof fn lemma_tagged_next(m: TagMap, path: Seq<char>, tags: Seq<Seq<char>>, n: int)
    requires
        0 <= n < tags.len(),
    ensures
        tagged(tagged(m, path, tags.take(n)), path, seq![tags[n]]) == tagged(
            m,
            path,
            tags.take(n + 1),
        ),
{
    let done = tags.take(n);
    let next = tags.take(n + 1);
    let one = seq![tags[n]];
    let stepwise = tagged(tagged(m, path, done), path, one);
    let at_once = tagged(m, path, next);
    assert(one[0] == tags[n]);
    assert forall|t: Seq<char>| stepwise.contains_key(t) <==> at_once.contains_key(t) by {
        lemma_take_next_contains(tags, n, t);
    }
    assert forall|t: Seq<char>| stepwise.contains_key(t) implies stepwise[t] == at_once[t] by {
        lemma_take_next_contains(tags, n, t);
        lemma_with_path_twice(paths_of(m, t), path);
    }
    assert(stepwise =~= at_once);
}

/// A filter keeps a sequence whose items all pass it as it is.
proof fn lemma_filter_keeps_all(paths: Seq<Seq<char>>, keep: spec_fn(Seq<char>) -> bool)
    requires
        forall|k: int| 0 <= k < paths.len() ==> keep(#[trigger] paths[k]),
    ensures
        paths.filter(keep) == paths,
    decreases paths.len(),
{
    reveal(Seq::filter);
    if paths.len() > 0 {
        lemma_filter_keeps_all(paths.drop_last(), keep);
        assert(paths.drop_last().push(paths.last()) =~= paths);
    }
}

/// Once detached, a path is gone, and detaching it again changes nothing.
pub proof fn lemma_without_path_twice(paths: Seq<Seq<char>>, path: Seq<char>)
    ensures
        !without_path(paths, path).contains(path),
        without_path(without_path(paths, path), path) == without_path(paths, path),
{
    let rest = without_path(paths, path);
    assert forall|k: int| 0 <= k < rest.len() implies other_than(path)(#[trigger] rest[k]) by {
        paths.lemma_filter_pred(other_than(path), k);
    }
    lemma_filter_keeps_all(rest, other_than(path));
}

/// Detaching a path from the tags of a list one after the other gives what
/// detaching it from the whole list gives.
pub proof fn lemma_untagged_next(m: TagMap, path: Seq<char>, tags: Seq<Seq<char>>, n: int)
    requires
        0 <= n < tags.len(),
    ensures
        untagged(untagged(m, path, tags.take(n)), path, seq![tags[n]]) == untagged(
            m,
            path,
            tags.take(n + 1),
        ),
{
    let done = tags.take(n);
    let next = tags.take(n + 1);
    let one = seq![tags[n]];
    let stepwise = untagged(untagged(m, path, done), path, one);
    let at_once = untagged(m, path, next);
    assert(one[0] == tags[n]);
    assert forall|t: Seq<char>| stepwise.contains_key(t) implies stepwise[t] == at_once[t] by {
        lemma_take_next_contains(tags, n, t);
        lemma_without_path_twice(m[t], path);
    }
    assert(stepwise =~= at_once);
}

} // verus!
