use vstd::prelude::*;
use crate::point::{Axis, Point3};

verus! {

/// The entries of `list` whose centroid along `axis` is `key`, in the order
/// they have in `list`.
pub open spec fn with_key(list: Seq<usize>, centroids: Seq<Point3>, axis: Axis, key: i64) -> Seq<
    usize,
> {
    list.filter(|f: usize| centroids[f as int].coordinate(axis) == key)
}

/// `out` holds the entries of `inp`, in the order of their centroids along
/// `axis`, entries of equal centroid in the order they had in `inp`.
pub open spec fn stably_sorted(
    out: Seq<usize>,
    inp: Seq<usize>,
    centroids: Seq<Point3>,
    axis: Axis,
) -> bool {
    &&& out.to_multiset() == inp.to_multiset()
    &&& ordered(out, centroids, axis)
    &&& forall|key: i64| #[trigger]
        with_key(out, centroids, axis, key) == with_key(inp, centroids, axis, key)
}

/// `list` is in the order of the centroids along `axis`.
pub open spec fn ordered(list: Seq<usize>, centroids: Seq<Point3>, axis: Axis) -> bool {
    forall|i: int, j: int|
        0 <= i < j < list.len() ==> centroids[list[i] as int].coordinate(axis)
            <= centroids[list[j] as int].coordinate(axis)
}

/// Sorts `indexes` with `slice::sort_by_key` of the standard library, the key
/// of a face being its centroid along `axis`. That sort keeps every entry, puts
/// them in the order of their keys and is stable: entries of equal key stay in
/// the order they came in.
#[verifier::external_body]
pub(crate) fn sort_by_centroid(indexes: &mut Vec<usize>, centroids: &Vec<Point3>, axis: Axis)
    requires
        forall|i: int|
            0 <= i < old(indexes)@.len() ==> (#[trigger] old(indexes)@[i]) < centroids@.len(),
    ensures
        stably_sorted(final(indexes)@, old(indexes)@, centroids@, axis),
{
    indexes.sort_by_key(|face| centroids[*face].get(axis));
}

/// The centroid of face `f` along `axis`.
pub open spec fn key_of(centroids: Seq<Point3>, axis: Axis, f: usize) -> i64 {
    centroids[f as int].coordinate(axis)
}

/// An entry of a list stands among the entries of its key.
proof fn lemma_with_key_holds(list: Seq<usize>, centroids: Seq<Point3>, axis: Axis, i: int)
    requires
        0 <= i < list.len(),
    ensures
        with_key(list, centroids, axis, key_of(centroids, axis, list[i])).contains(list[i]),
{
    let key = key_of(centroids, axis, list[i]);
    list.lemma_filter_contains(|f: usize| centroids[f as int].coordinate(axis) == key, i);
}

/// What stands among the entries of a key is an entry of the list, and has
/// that key.
proof fn lemma_with_key_from(
    list: Seq<usize>,
    centroids: Seq<Point3>,
    axis: Axis,
    key: i64,
    f: usize,
)
    requires
        with_key(list, centroids, axis, key).contains(f),
    ensures
        list.contains(f),
        key_of(centroids, axis, f) == key,
{
    let pred = |g: usize| centroids[g as int].coordinate(axis) == key;
    let kept = list.filter(pred);
    let at = choose|at: int| 0 <= at < kept.len() && kept[at] == f;
    list.lemma_filter_pred(pred, at);
    list.lemma_filter_contains_rev(pred, f);
}

/// Two lists in the order of their keys that agree, key by key, on the
/// entries of that key and on their order, are the same list.
pub proof fn lemma_ordered_unique(a: Seq<usize>, b: Seq<usize>, centroids: Seq<Point3>, axis: Axis)
    requires
        ordered(a, centroids, axis),
        ordered(b, centroids, axis),
        a.len() == b.len(),
        forall|key: i64| #[trigger]
            with_key(a, centroids, axis, key) == with_key(b, centroids, axis, key),
    ensures
        a == b,
    decreases a.len(),
{
    if a.len() == 0 {
        assert(a =~= b);
    } else {
        let la = a.last();
        let lb = b.last();
        let ka = key_of(centroids, axis, la);
        let kb = key_of(centroids, axis, lb);
        // The last entries have the same key: the largest of either list.
        lemma_with_key_holds(a, centroids, axis, a.len() - 1);
        lemma_with_key_holds(b, centroids, axis, b.len() - 1);
        assert(with_key(a, centroids, axis, kb) == with_key(b, centroids, axis, kb));
        assert(with_key(a, centroids, axis, ka) == with_key(b, centroids, axis, ka));
        lemma_with_key_from(a, centroids, axis, kb, lb);
        lemma_with_key_from(b, centroids, axis, ka, la);
        let ia = choose|i: int| 0 <= i < a.len() && a[i] == lb;
        let ib = choose|i: int| 0 <= i < b.len() && b[i] == la;
        assert(kb <= ka) by {
            if ia < a.len() - 1 {
                assert(key_of(centroids, axis, a[ia]) <= key_of(centroids, axis, a[a.len() - 1]));
            }
        }
        assert(ka <= kb) by {
            if ib < b.len() - 1 {
                assert(key_of(centroids, axis, b[ib]) <= key_of(centroids, axis, b[b.len() - 1]));
            }
        }
        // They are the same entry: the last of those with that key.
        let a0 = a.drop_last();
        let b0 = b.drop_last();
        assert(a =~= a0.push(la));
        assert(b =~= b0.push(lb));
        let top = |f: usize| centroids[f as int].coordinate(axis) == ka;
        a0.lemma_filter_push(la, top);
        b0.lemma_filter_push(lb, top);
        assert(a0.filter(top).push(la) == b0.filter(top).push(lb));
        assert(a0.filter(top).push(la).last() == la);
        assert(b0.filter(top).push(lb).last() == lb);
        assert(la == lb);
        // What stands before them agrees in the same way.
        assert forall|key: i64| #[trigger]
            with_key(a0, centroids, axis, key) == with_key(b0, centroids, axis, key) by {
            let pred = |f: usize| centroids[f as int].coordinate(axis) == key;
            a0.lemma_filter_push(la, pred);
            b0.lemma_filter_push(lb, pred);
            assert(with_key(a, centroids, axis, key) == with_key(b, centroids, axis, key));
            if key == ka {
                assert(a0.filter(pred).push(la).drop_last() =~= a0.filter(pred));
                assert(b0.filter(pred).push(lb).drop_last() =~= b0.filter(pred));
            }
        }
        assert(ordered(a0, centroids, axis)) by {
            assert forall|i: int, j: int| 0 <= i < j < a0.len() implies key_of(
                centroids,
                axis,
                a0[i],
            ) <= key_of(centroids, axis, a0[j]) by {
                assert(a0[i] == a[i] && a0[j] == a[j]);
            }
        }
        assert(ordered(b0, centroids, axis)) by {
            assert forall|i: int, j: int| 0 <= i < j < b0.len() implies key_of(
                centroids,
                axis,
                b0[i],
            ) <= key_of(centroids, axis, b0[j]) by {
                assert(b0[i] == b[i] && b0[j] == b[j]);
            }
        }
        lemma_ordered_unique(a0, b0, centroids, axis);
    }
}

/// A list has one stable sort only.
pub proof fn lemma_stable_sort_unique(
    a: Seq<usize>,
    b: Seq<usize>,
    inp: Seq<usize>,
    centroids: Seq<Point3>,
    axis: Axis,
)
    requires
        stably_sorted(a, inp, centroids, axis),
        stably_sorted(b, inp, centroids, axis),
    ensures
        a == b,
{
    vstd::seq_lib::to_multiset_len(a);
    vstd::seq_lib::to_multiset_len(b);
    vstd::seq_lib::to_multiset_len(inp);
    assert forall|key: i64| #[trigger]
        with_key(a, centroids, axis, key) == with_key(b, centroids, axis, key) by {
        assert(with_key(a, centroids, axis, key) == with_key(inp, centroids, axis, key));
        assert(with_key(b, centroids, axis, key) == with_key(inp, centroids, axis, key));
    }
    lemma_ordered_unique(a, b, centroids, axis);
}

} // verus!
