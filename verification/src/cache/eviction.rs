//! The choice of what an eviction pass removes.
//!
//! The blobs of a cache are put in order of their last access, oldest first.
//! Blobs of the same last access are ordered by their identifier. A blob has
//! to go if it has not been used for longer than the allowed age, or if it,
//! together with all blobs after it in that order, takes more space than the
//! allowed total.

use crate::cache::blob_id::BlobId;
use crate::util::clock::{TimeDelta, Timestamp};
use vstd::bytes::{spec_u128_from_le_bytes, u128_from_le_bytes};
use vstd::prelude::*;

verus! {

/// A blob with the keys that stand for it.
#[derive(Debug, Clone)]
pub struct Blob {
    /// The latest access to any of the keys.
    pub latest_access: Timestamp,
    /// The size of the blob in bytes.
    pub size: u64,
    /// The identifier of the blob.
    pub blob_id: BlobId,
    /// The keys that stand for the blob.
    pub keys: Vec<String>,
}

/// A blob with the keys that stand for it, as mathematical values.
pub struct BlobView {
    pub latest_access: Timestamp,
    pub size: u64,
    pub blob_id: Seq<u8>,
    pub keys: Seq<Seq<char>>,
}

impl View for Blob {
    type V = BlobView;

    open spec fn view(&self) -> BlobView {
        BlobView {
            latest_access: self.latest_access,
            size: self.size,
            blob_id: self.blob_id@,
            keys: self.keys.deep_view(),
        }
    }
}

/// The blobs of a list as mathematical values.
pub open spec fn views(blobs: Seq<Blob>) -> Seq<BlobView> {
    blobs.map_values(|blob: Blob| blob@)
}

/// What blobs are ordered by: the last access in nanoseconds, the number
/// that the identifier is read as, the size, and the position in the list of
/// blobs. No two blobs of a list have the same.
pub type SortKey = (i128, u128, u64, usize);

/// The order of sort keys: by the first component in which they differ.
pub open spec fn key_le(a: SortKey, b: SortKey) -> bool {
    a.0 < b.0 || (a.0 == b.0 && (a.1 < b.1 || (a.1 == b.1 && (a.2 < b.2 || (a.2 == b.2 && a.3
        <= b.3)))))
}

/// Sorts sort keys with `sort` of the standard library, which puts a slice
/// in ascending order and keeps all of its elements. Tuples are ordered by
/// the first component in which they differ.
#[verifier::external_body]
fn sort_keys(keys: &mut Vec<SortKey>)
    ensures
        final(keys)@.to_multiset() == old(keys)@.to_multiset(),
        forall|i: int, j: int|
            0 <= i < j < final(keys).len() ==> key_le(
                #[trigger] final(keys)[i],
                #[trigger] final(keys)[j],
            ),
{
    keys.sort()
}

/// The sort key of the blob at `position`.
pub open spec fn key_of(blob: BlobView, position: int) -> SortKey {
    (
        blob.latest_access.total_nanos() as i128,
        spec_u128_from_le_bytes(blob.blob_id),
        blob.size,
        position as usize,
    )
}

/// The sort keys of a list of blobs.
pub open spec fn keys_of(blobs: Seq<BlobView>) -> Seq<SortKey> {
    Seq::new(blobs.len(), |i: int| key_of(blobs[i], i))
}

/// The sum of the weights of all `keys`.
pub open spec fn total_weight(keys: Seq<SortKey>, weight: spec_fn(SortKey) -> nat) -> nat
    decreases keys.len(),
{
    if keys.len() == 0 {
        0
    } else {
        total_weight(keys.drop_last(), weight) + weight(keys.last())
    }
}

/// The size of a blob if it is `pivot` or comes after it, and nothing
/// otherwise.
pub open spec fn not_older(pivot: SortKey) -> spec_fn(SortKey) -> nat {
    |k: SortKey|
        if key_le(pivot, k) {
            k.2 as nat
        } else {
            0
        }
}

/// The size of a blob if it stays, and nothing if it is evicted.
pub open spec fn if_retained(evicted: Seq<usize>) -> spec_fn(SortKey) -> nat {
    |k: SortKey|
        if evicted.contains(k.3) {
            0
        } else {
            k.2 as nat
        }
}

/// Whether a blob that was last used at `nanos` has not been used for
/// longer than `max_unused_age`.
pub open spec fn is_stale(nanos: int, max_unused_age: Option<TimeDelta>, now: Timestamp) -> bool {
    max_unused_age matches Some(age) && nanos < now.total_nanos() - age.total_nanos()
}

/// The space that the blobs may take; unbounded space counts as `u64::MAX`.
pub open spec fn budget(max_blob_size_sum: Option<u64>) -> int {
    match max_blob_size_sum {
        Some(max) => max as int,
        None => u64::MAX as int,
    }
}

/// Whether the blob with the sort key `key` has to go.
pub open spec fn must_go(
    keys: Seq<SortKey>,
    key: SortKey,
    max_unused_age: Option<TimeDelta>,
    max_blob_size_sum: Option<u64>,
    now: Timestamp,
) -> bool {
    is_stale(key.0 as int, max_unused_age, now) || total_weight(keys, not_older(key)) > budget(
        max_blob_size_sum,
    )
}

/// Whether `evicted` holds the positions of exactly the blobs that have to
/// go, oldest first.
pub open spec fn is_plan(
    keys: Seq<SortKey>,
    evicted: Seq<usize>,
    max_unused_age: Option<TimeDelta>,
    max_blob_size_sum: Option<u64>,
    now: Timestamp,
) -> bool {
    &&& forall|p: int| 0 <= p < evicted.len() ==> (#[trigger] evicted[p]) < keys.len()
    &&& forall|p: int, q: int|
        0 <= p < q < evicted.len() ==> key_le(
            keys[(#[trigger] evicted[p]) as int],
            keys[(#[trigger] evicted[q]) as int],
        ) && evicted[p] != evicted[q]
    &&& forall|i: int|
        0 <= i < keys.len() ==> (evicted.contains(i as usize) <==> must_go(
            keys,
            #[trigger] keys[i],
            max_unused_age,
            max_blob_size_sum,
            now,
        ))
}

/// The sum of weights does not depend on the order of the keys.
proof fn lemma_weight_of_permutation(
    a: Seq<SortKey>,
    b: Seq<SortKey>,
    weight: spec_fn(SortKey) -> nat,
)
    requires
        a.to_multiset() == b.to_multiset(),
    ensures
        total_weight(a, weight) == total_weight(b, weight),
    decreases a.len(),
{
    vstd::seq_lib::to_multiset_len(a);
    vstd::seq_lib::to_multiset_len(b);
    assert(a.len() == b.len());
    if a.len() > 0 {
        let x = a.last();
        assert(a.contains(x)) by {
            assert(a[a.len() - 1] == x);
        }
        vstd::seq_lib::to_multiset_contains(a, x);
        vstd::seq_lib::to_multiset_contains(b, x);
        assert(b.contains(x));
        let j = choose|j: int| 0 <= j < b.len() && b[j] == x;
        assert(a.drop_last() =~= a.remove(a.len() - 1));
        vstd::seq_lib::to_multiset_remove(a, a.len() - 1);
        vstd::seq_lib::to_multiset_remove(b, j);
        assert(a.drop_last().to_multiset() == b.remove(j).to_multiset());
        lemma_weight_of_permutation(a.drop_last(), b.remove(j), weight);
        lemma_weight_without(b, j, weight);
    }
}

/// The sum of weights is that of one key and that of all others.
proof fn lemma_weight_without(keys: Seq<SortKey>, j: int, weight: spec_fn(SortKey) -> nat)
    requires
        0 <= j < keys.len(),
    ensures
        total_weight(keys, weight) == total_weight(keys.remove(j), weight) + weight(keys[j]),
    decreases keys.len(),
{
    if j == keys.len() - 1 {
        assert(keys.remove(j) =~= keys.drop_last());
    } else {
        lemma_weight_without(keys.drop_last(), j, weight);
        assert(keys.remove(j).drop_last() =~= keys.drop_last().remove(j));
        assert(keys.remove(j).last() == keys.last());
    }
}

/// The sum of the sizes of `keys[from..]`.
pub open spec fn suffix_size(keys: Seq<SortKey>, from: int) -> nat
    decreases keys.len() - from,
{
    if from < 0 || from >= keys.len() {
        0
    } else {
        keys[from].2 as nat + suffix_size(keys, from + 1)
    }
}

/// Whether the keys are in ascending order and no two are the same.
pub open spec fn ascending(keys: Seq<SortKey>) -> bool {
    forall|i: int, j: int|
        0 <= i < j < keys.len() ==> key_le(#[trigger] keys[i], #[trigger] keys[j]) && keys[i]
            != keys[j]
}

/// Of keys in ascending order, the weights of the first `n` add up to the
/// sizes of those among them that are at or after position `from`, if the
/// weight is the size from `from` on and nothing before.
proof fn lemma_weight_of_suffix(
    keys: Seq<SortKey>,
    weight: spec_fn(SortKey) -> nat,
    from: int,
    n: int,
)
    requires
        0 <= from <= keys.len(),
        0 <= n <= keys.len(),
        forall|i: int| 0 <= i < from ==> weight(#[trigger] keys[i]) == 0,
        forall|i: int| from <= i < keys.len() ==> weight(#[trigger] keys[i]) == keys[i].2,
    ensures
        total_weight(keys.take(n), weight) + suffix_size(keys, if n < from {
            from
        } else {
            n
        }) == suffix_size(keys, from),
    decreases n,
{
    if n > 0 {
        lemma_weight_of_suffix(keys, weight, from, n - 1);
        assert(keys.take(n).drop_last() =~= keys.take(n - 1));
        assert(keys.take(n).last() == keys[n - 1]);
    } else {
        assert(keys.take(0).len() == 0);
    }
}

/// The sizes of a suffix add up to less the further back it starts.
proof fn lemma_suffix_size_shrinks(keys: Seq<SortKey>, p: int, q: int)
    requires
        0 <= p <= q <= keys.len(),
    ensures
        suffix_size(keys, q) <= suffix_size(keys, p),
    decreases q - p,
{
    if p < q {
        lemma_suffix_size_shrinks(keys, p + 1, q);
    }
}

/// The order of sort keys is transitive, and two keys that each come before
/// the other are the same.
proof fn lemma_key_order(a: SortKey, b: SortKey, c: SortKey)
    ensures
        key_le(a, b) && key_le(b, c) ==> key_le(a, c),
        key_le(a, b) && key_le(b, a) ==> a == b,
        key_le(a, b) || key_le(b, a),
{
}

/// The number that a blob identifier is read as.
fn id_number(blob_id: &BlobId) -> (number: u128)
    ensures
        number == spec_u128_from_le_bytes(blob_id@),
{
    u128_from_le_bytes(vstd::array::array_as_slice(blob_id))
}

/// The point in time `t` in nanoseconds.
fn nanos_of(t: &Timestamp) -> (nanos: i128)
    ensures
        nanos == t.total_nanos(),
{
    t.timestamp() as i128 * 1_000_000_000 + t.timestamp_subsec_nanos() as i128
}

/// The span `d` in nanoseconds.
fn span_nanos(d: &TimeDelta) -> (nanos: i128)
    ensures
        nanos == d.total_nanos(),
{
    d.whole_seconds() as i128 * 1_000_000_000 + d.subsec_nanos() as i128
}

/// Chooses the blobs that an eviction pass removes, and the order in which
/// it removes them: the positions of all blobs that have to go, oldest
/// first. What stays has been used within the allowed age and fits into the
/// allowed space.
pub fn plan_eviction(
    blobs: &Vec<Blob>,
    max_unused_age: Option<TimeDelta>,
    max_blob_size_sum: Option<u64>,
    now: Timestamp,
) -> (evicted: Vec<usize>)
    ensures
        is_plan(keys_of(views(blobs@)), evicted@, max_unused_age, max_blob_size_sum, now),
        forall|i: int|
            0 <= i < blobs.len() && !evicted@.contains(i as usize) ==> !is_stale(
                (#[trigger] blobs[i]).latest_access.total_nanos(),
                max_unused_age,
                now,
            ),
        total_weight(keys_of(views(blobs@)), if_retained(evicted@)) <= budget(max_blob_size_sum),
{
    let ghost original = keys_of(views(blobs@));
    let mut keys: Vec<SortKey> = Vec::new();
    let mut total: u128 = 0;
    let mut i: usize = 0;
    while i < blobs.len()
        invariant
            i <= blobs.len(),
            original == keys_of(views(blobs@)),
            keys@ == original.take(i as int),
            total == suffix_size(original.take(i as int), 0),
            total <= i * u64::MAX,
        decreases blobs.len() - i,
    {
        let blob = &blobs[i];
        let key: SortKey = (nanos_of(&blob.latest_access), id_number(&blob.blob_id), blob.size, i);
        proof {
            assert(key == original[i as int]);
            assert(original.take(i as int).push(key) =~= original.take(i + 1));
            lemma_suffix_size_push(original.take(i as int), key);
            assert((i + 1) * u64::MAX == i * u64::MAX + u64::MAX) by (nonlinear_arith);
            assert(i * u64::MAX + u64::MAX <= u128::MAX) by (nonlinear_arith)
                requires
                    i < usize::MAX,
                    usize::MAX <= u64::MAX,
            ;
        }
        keys.push(key);
        total = total + blob.size as u128;
        i += 1;
    }
    assert(original.take(blobs.len() as int) =~= original);
    sort_keys(&mut keys);
    let ghost sorted = keys@;
    proof {
        lemma_sorted(original, sorted);
        lemma_weight_of_permutation(sorted, original, |k: SortKey| k.2 as nat);
        lemma_weight_is_size(sorted, 0);
        lemma_weight_is_size(original, 0);
    }
    let limit: u128 = match max_blob_size_sum {
        Some(max) => max as u128,
        None => u64::MAX as u128,
    };
    let cutoff: Option<i128> = match &max_unused_age {
        Some(age) => Some(nanos_of(&now) - span_nanos(age)),
        None => None,
    };
    let mut evicted: Vec<usize> = Vec::new();
    let mut p: usize = 0;
    while p < keys.len()
        invariant_except_break
            p <= keys.len(),
        invariant
            keys@ == sorted,
            p <= keys.len(),
            total == suffix_size(sorted, p as int),
            limit == budget(max_blob_size_sum),
            match cutoff {
                Some(c) => max_unused_age matches Some(age) && c == now.total_nanos()
                    - age.total_nanos(),
                None => max_unused_age is None,
            },
            evicted.len() == p,
            forall|j: int| 0 <= j < p ==> (#[trigger] evicted[j]) == sorted[j].3,
            forall|j: int|
                0 <= j < p ==> is_stale((#[trigger] sorted[j]).0 as int, max_unused_age, now)
                    || suffix_size(sorted, j) > limit,
        ensures
            p == keys.len() || (!is_stale(sorted[p as int].0 as int, max_unused_age, now)
                && suffix_size(sorted, p as int) <= limit),
        decreases keys.len() - p,
    {
        let key = keys[p];
        let fresh = match cutoff {
            Some(c) => key.0 >= c,
            None => true,
        };
        if fresh && total <= limit {
            break ;
        }
        evicted.push(key.3);
        total = total - key.2 as u128;
        p += 1;
    }
    proof {
        lemma_plan(
            original,
            sorted,
            evicted@,
            p as int,
            max_unused_age,
            max_blob_size_sum,
            now,
        );
        assert forall|i: int| 0 <= i < blobs.len() && !evicted@.contains(i as usize) implies !is_stale(
            (#[trigger] blobs[i]).latest_access.total_nanos(),
            max_unused_age,
            now,
        ) by {
            assert(original[i].0 == blobs[i].latest_access.total_nanos());
        }
    }
    evicted
}

/// The sizes of keys with one more key add up to one more size.
proof fn lemma_suffix_size_push(keys: Seq<SortKey>, key: SortKey)
    ensures
        suffix_size(keys.push(key), 0) == suffix_size(keys, 0) + key.2,
{
    lemma_suffix_size_push_from(keys, key, 0);
}

proof fn lemma_suffix_size_push_from(keys: Seq<SortKey>, key: SortKey, from: int)
    requires
        0 <= from <= keys.len(),
    ensures
        suffix_size(keys.push(key), from) == suffix_size(keys, from) + key.2,
    decreases keys.len() - from,
{
    let longer = keys.push(key);
    if from < keys.len() {
        lemma_suffix_size_push_from(keys, key, from + 1);
        assert(longer[from] == keys[from]);
        assert(suffix_size(longer, from) == longer[from].2 as nat + suffix_size(longer, from + 1));
        assert(suffix_size(keys, from) == keys[from].2 as nat + suffix_size(keys, from + 1));
    } else {
        assert(longer[from] == key);
        assert(suffix_size(longer, from + 1) == 0);
        assert(suffix_size(longer, from) == longer[from].2 as nat + suffix_size(longer, from + 1));
        assert(suffix_size(keys, from) == 0);
    }
}

/// The sizes of keys are their weights, if the weight of a key is its size.
proof fn lemma_weight_is_size(keys: Seq<SortKey>, from: int)
    ensures
        total_weight(keys, |k: SortKey| k.2 as nat) == suffix_size(keys, 0),
{
    lemma_weight_of_suffix(keys, |k: SortKey| k.2 as nat, 0, keys.len() as int);
    assert(keys.take(keys.len() as int) =~= keys);
}

/// What sorting the keys of a list of blobs gives: the same keys, each
/// once, in ascending order.
proof fn lemma_sorted(original: Seq<SortKey>, sorted: Seq<SortKey>)
    requires
        forall|i: int| 0 <= i < original.len() ==> (#[trigger] original[i]).3 == i,
        sorted.to_multiset() == original.to_multiset(),
        forall|i: int, j: int|
            0 <= i < j < sorted.len() ==> key_le(#[trigger] sorted[i], #[trigger] sorted[j]),
    ensures
        sorted.len() == original.len(),
        ascending(sorted),
        forall|j: int|
            0 <= j < sorted.len() ==> (#[trigger] sorted[j]).3 < original.len()
                && original[sorted[j].3 as int] == sorted[j],
        forall|i: int| 0 <= i < original.len() ==> sorted.contains(#[trigger] original[i]),
{
    vstd::seq_lib::to_multiset_len(original);
    vstd::seq_lib::to_multiset_len(sorted);
    assert(original.no_duplicates()) by {
        assert forall|i: int, j: int|
            0 <= i < original.len() && 0 <= j < original.len() && i != j implies original[i]
            != original[j] by {
            assert(original[i].3 != original[j].3);
        }
    }
    original.lemma_multiset_has_no_duplicates();
    sorted.lemma_multiset_has_no_duplicates_conv();
    assert forall|j: int| 0 <= j < sorted.len() implies (#[trigger] sorted[j]).3 < original.len()
        && original[sorted[j].3 as int] == sorted[j] by {
        assert(sorted.contains(sorted[j]));
        vstd::seq_lib::to_multiset_contains(sorted, sorted[j]);
        vstd::seq_lib::to_multiset_contains(original, sorted[j]);
        assert(original.contains(sorted[j]));
        let i = choose|i: int| 0 <= i < original.len() && original[i] == sorted[j];
        assert(original[i].3 == i);
    }
    assert forall|i: int| 0 <= i < original.len() implies sorted.contains(
        #[trigger] original[i],
    ) by {
        assert(original.contains(original[i]));
        vstd::seq_lib::to_multiset_contains(sorted, original[i]);
        vstd::seq_lib::to_multiset_contains(original, original[i]);
    }
}

/// The blobs before the point at which the pass stops are those that have
/// to go, and what stays fits into the allowed space.
proof fn lemma_plan(
    original: Seq<SortKey>,
    sorted: Seq<SortKey>,
    evicted: Seq<usize>,
    stop: int,
    max_unused_age: Option<TimeDelta>,
    max_blob_size_sum: Option<u64>,
    now: Timestamp,
)
    requires
        forall|i: int| 0 <= i < original.len() ==> (#[trigger] original[i]).3 == i,
        sorted.to_multiset() == original.to_multiset(),
        sorted.len() == original.len(),
        ascending(sorted),
        forall|j: int|
            0 <= j < sorted.len() ==> (#[trigger] sorted[j]).3 < original.len()
                && original[sorted[j].3 as int] == sorted[j],
        forall|i: int| 0 <= i < original.len() ==> sorted.contains(#[trigger] original[i]),
        0 <= stop <= sorted.len(),
        evicted.len() == stop,
        forall|j: int| 0 <= j < stop ==> (#[trigger] evicted[j]) == sorted[j].3,
        forall|j: int|
            0 <= j < stop ==> is_stale((#[trigger] sorted[j]).0 as int, max_unused_age, now)
                || suffix_size(sorted, j) > budget(max_blob_size_sum),
        stop == sorted.len() || (!is_stale(sorted[stop].0 as int, max_unused_age, now)
            && suffix_size(sorted, stop) <= budget(max_blob_size_sum)),
    ensures
        is_plan(original, evicted, max_unused_age, max_blob_size_sum, now),
        total_weight(original, if_retained(evicted)) <= budget(max_blob_size_sum),
{
    assert forall|p: int, q: int| 0 <= p < q < evicted.len() implies key_le(
        original[(#[trigger] evicted[p]) as int],
        original[(#[trigger] evicted[q]) as int],
    ) && evicted[p] != evicted[q] by {
        assert(original[sorted[p].3 as int] == sorted[p]);
        assert(original[sorted[q].3 as int] == sorted[q]);
        assert(key_le(sorted[p], sorted[q]) && sorted[p] != sorted[q]);
    }
    assert forall|i: int| 0 <= i < original.len() implies (evicted.contains(i as usize)
        <==> must_go(original, #[trigger] original[i], max_unused_age, max_blob_size_sum, now)) by {
        let key = original[i];
        assert(sorted.contains(key));
        let q = choose|q: int| 0 <= q < sorted.len() && sorted[q] == key;
        lemma_weight_of_permutation(original, sorted, not_older(key));
        assert forall|j: int| 0 <= j < q implies not_older(key)(#[trigger] sorted[j]) == 0 by {
            lemma_key_order(sorted[j], key, key);
        }
        assert forall|j: int| q <= j < sorted.len() implies not_older(key)(#[trigger] sorted[j])
            == sorted[j].2 by {
            if j > q {
                assert(key_le(sorted[q], sorted[j]));
            }
        }
        lemma_weight_of_suffix(sorted, not_older(key), q, sorted.len() as int);
        assert(sorted.take(sorted.len() as int) =~= sorted);
        assert(total_weight(original, not_older(key)) == suffix_size(sorted, q));
        if q < stop {
            assert(evicted[q] == i as usize);
            assert(evicted.contains(i as usize));
        } else {
            lemma_suffix_size_shrinks(sorted, stop, q);
            assert(key_le(sorted[stop], sorted[q]) || stop == q);
            if evicted.contains(i as usize) {
                let j = choose|j: int| 0 <= j < evicted.len() && evicted[j] == i as usize;
                assert(sorted[j].3 == i);
                assert(original[sorted[j].3 as int] == sorted[j]);
                assert(sorted[j] == sorted[q]);
                assert(false);
            }
        }
    }
    lemma_weight_of_permutation(original, sorted, if_retained(evicted));
    assert forall|j: int| 0 <= j < stop implies if_retained(evicted)(#[trigger] sorted[j]) == 0 by {
        assert(evicted[j] == sorted[j].3);
    }
    assert forall|j: int| stop <= j < sorted.len() implies if_retained(evicted)(
        #[trigger] sorted[j],
    ) == sorted[j].2 by {
        if evicted.contains(sorted[j].3) {
            let m = choose|m: int| 0 <= m < evicted.len() && evicted[m] == sorted[j].3;
            assert(original[sorted[m].3 as int] == sorted[m]);
            assert(original[sorted[j].3 as int] == sorted[j]);
            assert(sorted[m] == sorted[j]);
            assert(false);
        }
    }
    lemma_weight_of_suffix(sorted, if_retained(evicted), stop, sorted.len() as int);
    assert(sorted.take(sorted.len() as int) =~= sorted);
}

} // verus!
