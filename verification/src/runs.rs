//! Maximal runs of equal neighbouring keys: the shape that calendar days and
//! fixed-width buckets share.

use vstd::prelude::*;

verus! {

/// A stretch of neighbouring places of a sequence, both ends included.
pub struct Run {
    pub start: int,
    pub end: int,
}

/// The maximal stretches of equal neighbouring keys, in order: a new run
/// begins wherever a key differs from the one before it. Both the day ranges
/// of the daily index and the buckets of a fixed-width aggregation are runs,
/// the first of calendar days and the second of bucket starts.
pub open spec fn runs(keys: Seq<int>) -> Seq<Run>
    decreases keys.len(),
{
    if keys.len() == 0 {
        Seq::empty()
    } else {
        let before = runs(keys.drop_last());
        let i = keys.len() - 1;
        if i > 0 && keys[i - 1] == keys[i] {
            before.drop_last().push(Run { start: before.last().start, end: i })
        } else {
            before.push(Run { start: i, end: i })
        }
    }
}

/// Whether `parts` cuts the places of `keys` into its maximal stretches of
/// equal keys: the parts follow each other without gap or overlap from the
/// first place to the last, the keys within a part are all equal, and the
/// keys on the two sides of a cut differ.
pub open spec fn is_run_partition(keys: Seq<int>, parts: Seq<Run>) -> bool {
    &&& (parts.len() == 0 <==> keys.len() == 0)
    &&& parts.len() > 0 ==> parts[0].start == 0 && parts.last().end == keys.len() - 1
    &&& forall|k: int|
        0 <= k < parts.len() ==> 0 <= (#[trigger] parts[k]).start <= parts[k].end < keys.len()
    &&& forall|k: int|
        0 <= k < parts.len() - 1 ==> (#[trigger] parts[k + 1]).start == parts[k].end + 1
    &&& forall|k: int, i: int|
        0 <= k < parts.len() && parts[k].start <= i <= parts[k].end ==> #[trigger] keys[i]
            == keys[(#[trigger] parts[k]).start]
    &&& forall|k: int|
        0 <= k < parts.len() - 1 ==> keys[parts[k].end] != keys[(#[trigger] parts[k + 1]).start]
}

/// Whether the keys never fall from one place to the next.
pub open spec fn ascending(keys: Seq<int>) -> bool {
    forall|i: int, j: int| 0 <= i <= j < keys.len() ==> keys[i] <= keys[j]
}

/// The runs of a key sequence are its partition into maximal stretches of
/// equal keys.
pub proof fn lemma_runs_partition(keys: Seq<int>)
    ensures
        is_run_partition(keys, runs(keys)),
    decreases keys.len(),
{
    if keys.len() > 0 {
        let front = keys.drop_last();
        let before = runs(front);
        let after = runs(keys);
        let i = keys.len() - 1;
        lemma_runs_partition(front);
        if i > 0 && keys[i - 1] == keys[i] {
            let last = before.len() - 1;
            assert(front[i - 1] == keys[i - 1]);
            assert forall|k: int| 0 <= k < after.len() implies 0 <= (#[trigger] after[k]).start
                <= after[k].end < keys.len() by {
                if k < last {
                    assert(after[k] == before[k]);
                }
            }
            assert forall|k: int| 0 <= k < after.len() - 1 implies (#[trigger] after[k
                + 1]).start == after[k].end + 1 by {
                assert(after[k] == before[k]);
                assert(after[k + 1].start == before[k + 1].start);
            }
            assert forall|k: int, j: int|
                0 <= k < after.len() && after[k].start <= j <= after[k].end implies #[trigger] keys[j]
                == keys[(#[trigger] after[k]).start] by {
                if k < last {
                    assert(after[k] == before[k]);
                    assert(front[j] == front[before[k].start]);
                } else {
                    if j < i {
                        assert(front[j] == front[before[last].start]);
                    } else {
                        assert(front[i - 1] == front[before[last].start]);
                    }
                }
            }
            assert forall|k: int| 0 <= k < after.len() - 1 implies keys[after[k].end] != keys[(
            #[trigger] after[k + 1]).start] by {
                assert(after[k] == before[k]);
                assert(after[k + 1].start == before[k + 1].start);
                assert(front[before[k].end] != front[before[k + 1].start]);
            }
        } else {
            assert forall|k: int| 0 <= k < after.len() implies 0 <= (#[trigger] after[k]).start
                <= after[k].end < keys.len() by {
                if k < before.len() {
                    assert(after[k] == before[k]);
                }
            }
            assert forall|k: int| 0 <= k < after.len() - 1 implies (#[trigger] after[k
                + 1]).start == after[k].end + 1 by {
                assert(after[k] == before[k]);
                if k + 1 < before.len() {
                    assert(after[k + 1] == before[k + 1]);
                }
            }
            assert forall|k: int, j: int|
                0 <= k < after.len() && after[k].start <= j <= after[k].end implies #[trigger] keys[j]
                == keys[(#[trigger] after[k]).start] by {
                if k < before.len() {
                    assert(after[k] == before[k]);
                    assert(front[j] == front[before[k].start]);
                }
            }
            assert forall|k: int| 0 <= k < after.len() - 1 implies keys[after[k].end] != keys[(
            #[trigger] after[k + 1]).start] by {
                assert(after[k] == before[k]);
                if k + 1 < before.len() {
                    assert(after[k + 1] == before[k + 1]);
                    assert(front[before[k].end] != front[before[k + 1].start]);
                }
            }
        }
    }
}

/// Over keys that never fall, the runs come in strictly rising key order, so
/// no key has two runs.
pub proof fn lemma_runs_ascending(keys: Seq<int>, k: int, m: int)
    requires
        ascending(keys),
        0 <= k < m < runs(keys).len(),
    ensures
        keys[runs(keys)[k].start] < keys[runs(keys)[m].start],
    decreases m - k,
{
    lemma_runs_partition(keys);
    let parts = runs(keys);
    assert(parts[k + 1].start == parts[k].end + 1);
    assert(keys[parts[k].end] == keys[parts[k].start]);
    assert(keys[parts[k].end] != keys[parts[k + 1].start]);
    assert(keys[parts[k].end] <= keys[parts[k + 1].start]);
    if k + 1 < m {
        lemma_runs_ascending(keys, k + 1, m);
    }
}

/// How the runs grow when one key is added: the last run takes the new place
/// where the new key equals the one before it, and a new run of that one
/// place is added otherwise. The runs before the last stay as they were.
pub proof fn lemma_runs_push(keys: Seq<int>, key: int)
    ensures
        keys.len() > 0 ==> runs(keys).len() > 0,
        keys.len() > 0 && keys.last() == key ==> runs(keys.push(key)) == runs(
            keys,
        ).drop_last().push(Run { start: runs(keys).last().start, end: keys.len() as int }),
        keys.len() == 0 || keys.last() != key ==> runs(keys.push(key)) == runs(keys).push(
            Run { start: keys.len() as int, end: keys.len() as int },
        ),
{
    assert(keys.push(key).drop_last() == keys);
    lemma_runs_partition(keys);
}

} // verus!
