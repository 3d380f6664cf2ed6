//! Frame paths: which entries of a directory are frames of a dataset, and
//! in what order they are played.

use vstd::prelude::*;
use vstd::seq_lib::{to_multiset_build, to_multiset_remove};
use crate::index::{index_of_chars, is_numbered, spec_frame_index};
use crate::name::{extension, spec_is_point_cloud_file};
use crate::text::chars_of;

verus! {

/// The test "is a point-cloud file", as a predicate on paths.
pub open spec fn point_cloud() -> spec_fn(Seq<char>) -> bool {
    |path: Seq<char>| spec_is_point_cloud_file(path)
}

/// The test "has the frame number `number` in the dataset `tag`", as a
/// predicate on paths.
pub open spec fn numbered(tag: Seq<char>, number: u32) -> spec_fn(Seq<char>) -> bool {
    |path: Seq<char>| spec_frame_index(path, tag) == number
}

/// Whether the frame numbers of `paths` in the dataset `tag` never fall
/// from one path to the next.
pub open spec fn in_frame_order(paths: Seq<Seq<char>>, tag: Seq<char>) -> bool {
    forall|i: int, j: int|
        0 <= i <= j < paths.len() ==> spec_frame_index(#[trigger] paths[i], tag)
            <= spec_frame_index(#[trigger] paths[j], tag)
}

/// Whether `paths` is the playing order of the directory listing
/// `entries` for the dataset `tag`.
///
/// The paths stand in the order of their frame numbers. Under each frame
/// number stand the point-cloud files of the listing that have this
/// number, all of them, once each, and in the order of the listing.
pub open spec fn resolves(entries: Seq<Seq<char>>, tag: Seq<char>, paths: Seq<Seq<char>>) -> bool {
    &&& in_frame_order(paths, tag)
    &&& forall|number: u32|
        #[trigger] paths.filter(numbered(tag, number)) == entries.filter(point_cloud()).filter(
            numbered(tag, number),
        )
}

/// Filtering a sequence that grew by one element: the element is kept at
/// the end, or left out.
pub proof fn lemma_filter_push<A>(s: Seq<A>, x: A, pred: spec_fn(A) -> bool)
    ensures
        s.push(x).filter(pred) == if pred(x) {
            s.filter(pred).push(x)
        } else {
            s.filter(pred)
        },
{
    reveal(Seq::filter);
    assert(s.push(x).drop_last() =~= s);
}

/// Filtering leaves nothing of a sequence in which no element passes.
pub proof fn lemma_filter_none<A>(s: Seq<A>, pred: spec_fn(A) -> bool)
    requires
        forall|i: int| 0 <= i < s.len() ==> !pred(#[trigger] s[i]),
    ensures
        s.filter(pred) == Seq::<A>::empty(),
    decreases s.len(),
{
    reveal(Seq::filter);
    if s.len() > 0 {
        lemma_filter_none(s.drop_last(), pred);
    }
}

/// Filtering a sequence into which `x` was put at `at`, where no element
/// from `at` on passes: nothing changes if `x` does not pass, and `x`
/// comes last if it does.
proof fn lemma_filter_insert<A>(s: Seq<A>, at: int, x: A, pred: spec_fn(A) -> bool)
    requires
        0 <= at <= s.len(),
        pred(x) ==> forall|i: int| at <= i < s.len() ==> !pred(#[trigger] s[i]),
    ensures
        s.insert(at, x).filter(pred) == if pred(x) {
            s.filter(pred).push(x)
        } else {
            s.filter(pred)
        },
{
    let head = s.subrange(0, at);
    let tail = s.subrange(at, s.len() as int);
    assert(s =~= head + tail);
    assert(s.insert(at, x) =~= head.push(x) + tail);
    Seq::filter_distributes_over_add(head, tail, pred);
    Seq::filter_distributes_over_add(head.push(x), tail, pred);
    lemma_filter_push(head, x, pred);
    if pred(x) {
        lemma_filter_none(tail, pred);
        assert(head.filter(pred) + Seq::<A>::empty() =~= head.filter(pred));
        assert(head.filter(pred).push(x) + Seq::<A>::empty() =~= head.filter(pred).push(x));
    }
}

/// Putting `x` into a sequence, wherever, adds one `x` to what it holds.
proof fn lemma_insert_to_multiset<A>(s: Seq<A>, at: int, x: A)
    requires
        0 <= at <= s.len(),
    ensures
        s.insert(at, x).to_multiset() == s.to_multiset().insert(x),
{
    let grown = s.insert(at, x);
    assert(grown.remove(at) =~= s);
    assert(grown[at] == x);
    to_multiset_remove(grown, at);
    grown.to_multiset_ensures();
    assert(grown.contains(x));
    assert(grown.to_multiset() =~= grown.to_multiset().remove(x).insert(x));
}

/// Two sequences of paths in frame order that hold the same paths under
/// each frame number, in the same order, are one sequence.
pub proof fn lemma_frame_order_is_unique(a: Seq<Seq<char>>, b: Seq<Seq<char>>, tag: Seq<char>)
    requires
        in_frame_order(a, tag),
        in_frame_order(b, tag),
        forall|number: u32|
            #[trigger] a.filter(numbered(tag, number)) == b.filter(numbered(tag, number)),
    ensures
        a == b,
    decreases a.len(),
{
    if a.len() == 0 {
        if b.len() > 0 {
            let k = spec_frame_index(b.last(), tag);
            assert(b =~= b.drop_last().push(b.last()));
            lemma_filter_push(b.drop_last(), b.last(), numbered(tag, k));
            lemma_filter_none(a, numbered(tag, k));
            assert(a.filter(numbered(tag, k)) == b.filter(numbered(tag, k)));
        }
        assert(a =~= b);
    } else {
        let x = a.last();
        let k = spec_frame_index(x, tag);
        let head_a = a.drop_last();
        assert(a =~= head_a.push(x));
        lemma_filter_push(head_a, x, numbered(tag, k));
        assert(a.filter(numbered(tag, k)) == b.filter(numbered(tag, k)));
        if b.len() == 0 {
            lemma_filter_none(b, numbered(tag, k));
        }
        let y = b.last();
        let ky = spec_frame_index(y, tag);
        let head_b = b.drop_last();
        assert(b =~= head_b.push(y));
        lemma_filter_push(head_b, y, numbered(tag, ky));
        assert(a.filter(numbered(tag, ky)) == b.filter(numbered(tag, ky)));
        // The last frame number of each is found in the other, and is its greatest.
        if forall|i: int| 0 <= i < a.len() ==> !numbered(tag, ky)(#[trigger] a[i]) {
            lemma_filter_none(a, numbered(tag, ky));
        }
        let in_a = choose|i: int| 0 <= i < a.len() && numbered(tag, ky)(#[trigger] a[i]);
        assert(spec_frame_index(a[in_a], tag) <= spec_frame_index(a[a.len() - 1], tag));
        if forall|i: int| 0 <= i < b.len() ==> !numbered(tag, k)(#[trigger] b[i]) {
            lemma_filter_none(b, numbered(tag, k));
        }
        let in_b = choose|i: int| 0 <= i < b.len() && numbered(tag, k)(#[trigger] b[i]);
        assert(spec_frame_index(b[in_b], tag) <= spec_frame_index(b[b.len() - 1], tag));
        assert(k == ky);
        let same_a = head_a.filter(numbered(tag, k));
        let same_b = head_b.filter(numbered(tag, k));
        assert(same_a.push(x) == same_b.push(y));
        assert(same_a.push(x).last() == x);
        assert(same_b.push(y).last() == y);
        assert(same_a =~= same_a.push(x).drop_last());
        assert(same_b =~= same_b.push(y).drop_last());
        assert forall|number: u32| #[trigger]
            head_a.filter(numbered(tag, number)) == head_b.filter(numbered(tag, number)) by {
            lemma_filter_push(head_a, x, numbered(tag, number));
            lemma_filter_push(head_b, y, numbered(tag, number));
            assert(a.filter(numbered(tag, number)) == b.filter(numbered(tag, number)));
        }
        assert forall|i: int, j: int| 0 <= i <= j < head_a.len() implies spec_frame_index(
            #[trigger] head_a[i],
            tag,
        ) <= spec_frame_index(#[trigger] head_a[j], tag) by {
            assert(head_a[i] == a[i] && head_a[j] == a[j]);
        }
        assert forall|i: int, j: int| 0 <= i <= j < head_b.len() implies spec_frame_index(
            #[trigger] head_b[i],
            tag,
        ) <= spec_frame_index(#[trigger] head_b[j], tag) by {
            assert(head_b[i] == b[i] && head_b[j] == b[j]);
        }
        lemma_frame_order_is_unique(head_a, head_b, tag);
    }
}

/// A directory listing has one playing order: `resolves` holds of no two
/// sequences of paths.
pub proof fn lemma_resolves_once(
    entries: Seq<Seq<char>>,
    tag: Seq<char>,
    first: Seq<Seq<char>>,
    second: Seq<Seq<char>>,
)
    requires
        resolves(entries, tag, first),
        resolves(entries, tag, second),
    ensures
        first == second,
{
    assert forall|number: u32| #[trigger]
        first.filter(numbered(tag, number)) == second.filter(numbered(tag, number)) by {
        assert(first.filter(numbered(tag, number)) == entries.filter(point_cloud()).filter(
            numbered(tag, number),
        ));
        assert(second.filter(numbered(tag, number)) == entries.filter(point_cloud()).filter(
            numbered(tag, number),
        ));
    }
    lemma_frame_order_is_unique(first, second, tag);
}

/// A path that is not named as a frame of the dataset counts as frame
/// `0` and is played among the first: every path before it in the playing
/// order counts as frame `0` as well.
pub proof fn lemma_unnumbered_is_first(paths: Seq<Seq<char>>, tag: Seq<char>, at: int, before: int)
    requires
        in_frame_order(paths, tag),
        0 <= before <= at < paths.len(),
        !is_numbered(paths[at], tag),
    ensures
        spec_frame_index(paths[at], tag) == 0,
        spec_frame_index(paths[before], tag) == 0,
{
}

/// Whether `path` names a point-cloud file: the extension of its file
/// name is `pcd`.
pub fn is_point_cloud_file(path: &str) -> (yes: bool)
    ensures
        yes == spec_is_point_cloud_file(path@),
{
    let chars: Vec<char> = chars_of(path);
    has_point_cloud_extension(&chars)
}

fn has_point_cloud_extension(path: &Vec<char>) -> (yes: bool)
    ensures
        yes == spec_is_point_cloud_file(path@),
{
    match extension(path) {
        Some(ext) => {
            let yes: bool = ext.len() == 3 && ext[0] == 'p' && ext[1] == 'c' && ext[2] == 'd';
            proof {
                let pcd = seq!['p', 'c', 'd'];
                if yes {
                    assert(ext@ =~= pcd);
                } else if ext@ == pcd {
                    assert(pcd[0] == 'p' && pcd[1] == 'c' && pcd[2] == 'd');
                }
            }
            yes
        },
        None => false,
    }
}

/// The frames of the dataset `data_type` among the entries of a
/// directory, in playing order.
///
/// `entries` holds the paths of the directory's entries as they were
/// listed. Those whose extension is `pcd` are kept, the others dropped.
/// The kept paths are put in the order of their frame numbers, the
/// smallest first. Paths with the same frame number, such as all those
/// that carry none and count as frame `0`, keep the order in which they
/// were listed.
pub fn load_pcd_paths(entries: &Vec<String>, data_type: &str) -> (paths: Vec<String>)
    ensures
        resolves(entries.deep_view(), data_type@, paths.deep_view()),
        paths.deep_view().to_multiset() == entries.deep_view().filter(
            point_cloud(),
        ).to_multiset(),
        paths.len() == entries.deep_view().filter(point_cloud()).len(),
{
    let tag: Vec<char> = chars_of(data_type);
    let mut paths: Vec<String> = Vec::new();
    let mut numbers: Vec<u32> = Vec::new();
    let ghost listed = entries.deep_view();
    let n: usize = entries.len();
    let mut i: usize = 0;
    proof {
        assert(listed.take(0) =~= Seq::<Seq<char>>::empty());
        assert(paths.deep_view() =~= Seq::<Seq<char>>::empty());
        lemma_filter_none(listed.take(0), point_cloud());
        assert forall|number: u32|
            #[trigger] paths.deep_view().filter(numbered(tag@, number)) == listed.take(0).filter(
                point_cloud(),
            ).filter(numbered(tag@, number)) by {
            lemma_filter_none(Seq::<Seq<char>>::empty(), numbered(tag@, number));
        }
    }
    while i < n
        invariant
            i <= n,
            n == entries.len(),
            listed == entries.deep_view(),
            tag@ == data_type@,
            numbers.len() == paths.len(),
            paths.len() == listed.take(i as int).filter(point_cloud()).len(),
            paths.deep_view().to_multiset() == listed.take(i as int).filter(
                point_cloud(),
            ).to_multiset(),
            forall|j: int|
                0 <= j < paths.len() ==> #[trigger] numbers[j] == spec_frame_index(
                    paths[j]@,
                    tag@,
                ),
            forall|a: int, b: int|
                0 <= a <= b < numbers.len() ==> #[trigger] numbers[a] <= #[trigger] numbers[b],
            forall|number: u32|
                #[trigger] paths.deep_view().filter(numbered(tag@, number)) == listed.take(
                    i as int,
                ).filter(point_cloud()).filter(numbered(tag@, number)),
        decreases n - i,
    {
        let entry: &String = &entries[i];
        let chars: Vec<char> = chars_of(entry.as_str());
        let ghost seen = listed.take(i as int);
        let ghost kept = seen.filter(point_cloud());
        proof {
            assert(listed.take(i + 1) =~= seen.push(entry@));
            lemma_filter_push(seen, entry@, point_cloud());
        }
        if has_point_cloud_extension(&chars) {
            let number: u32 = index_of_chars(&chars, &tag);
            let mut at: usize = paths.len();
            while at > 0 && numbers[at - 1] > number
                invariant
                    at <= numbers.len(),
                    numbers.len() == paths.len(),
                    forall|j: int| at <= j < numbers.len() ==> #[trigger] numbers[j] > number,
                decreases at,
            {
                at = at - 1;
            }
            let ghost before = paths.deep_view();
            paths.insert(at, entry.clone());
            numbers.insert(at, number);
            proof {
                assert(paths.deep_view() =~= before.insert(at as int, entry@));
                lemma_insert_to_multiset(before, at as int, entry@);
                to_multiset_build(kept, entry@);
                assert forall|k: u32|
                    #[trigger] paths.deep_view().filter(numbered(tag@, k)) == kept.push(
                        entry@,
                    ).filter(numbered(tag@, k)) by {
                    let pred = numbered(tag@, k);
                    assert(pred(entry@) <==> k == number);
                    assert forall|j: int| at <= j < before.len() implies !pred(
                        #[trigger] before[j],
                    ) || k != number by {
                        assert(numbers[j + 1] > number);
                    }
                    lemma_filter_insert(before, at as int, entry@, pred);
                    lemma_filter_push(kept, entry@, pred);
                }
            }
        }
        i = i + 1;
    }
    proof {
        assert(listed.take(n as int) =~= listed);
        assert forall|a: int, b: int| 0 <= a <= b < paths.len() implies spec_frame_index(
            #[trigger] paths.deep_view()[a],
            tag@,
        ) <= spec_frame_index(#[trigger] paths.deep_view()[b], tag@) by {
            assert(numbers[a] <= numbers[b]);
        }
    }
    paths
}

} // verus!
