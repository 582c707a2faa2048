//! The three-way diff: given the flat views of a baseline and an
//! edited snapshot, plan the remote mutations that make the store
//! match the edit. Every delete is planned before any write, so that
//! demoting a path (removing `a/b` while writing a leaf at `a`) never
//! leaves the store with a node that is both a leaf and a parent.

use crate::flat::FlatMap;
use vstd::prelude::*;

verus! {

/// One remote mutation: delete a key, or set (create or overwrite) a
/// key to a value. The store has no separate create and update verbs.
pub enum SyncAction {
    Delete(String),
    Write(String, String),
}

/// Keys present in the baseline and absent from the edit.
pub open spec fn removed_keys(
    b: Map<Seq<char>, Seq<char>>,
    a: Map<Seq<char>, Seq<char>>,
) -> Set<Seq<char>> {
    b.dom().difference(a.dom())
}

/// Keys absent from the baseline and present in the edit.
pub open spec fn added_keys(
    b: Map<Seq<char>, Seq<char>>,
    a: Map<Seq<char>, Seq<char>>,
) -> Set<Seq<char>> {
    a.dom().difference(b.dom())
}

/// Keys present in both whose values differ (exact inequality).
pub open spec fn changed_keys(
    b: Map<Seq<char>, Seq<char>>,
    a: Map<Seq<char>, Seq<char>>,
) -> Set<Seq<char>> {
    b.dom().intersect(a.dom()).filter(|k: Seq<char>| b[k] != a[k])
}

/// Keys present in both with equal values.
pub open spec fn unchanged_keys(
    b: Map<Seq<char>, Seq<char>>,
    a: Map<Seq<char>, Seq<char>>,
) -> Set<Seq<char>> {
    b.dom().intersect(a.dom()).filter(|k: Seq<char>| b[k] == a[k])
}

/// Whether one planned action is justified by the diff of `b` and
/// `a`: a delete names a removed key; a write names an added or
/// changed key and carries the edit's value for it.
pub open spec fn planned_action_ok(
    b: Map<Seq<char>, Seq<char>>,
    a: Map<Seq<char>, Seq<char>>,
    x: SyncAction,
) -> bool {
    match x {
        SyncAction::Delete(k) => removed_keys(b, a).contains(k@),
        SyncAction::Write(k, v) => (added_keys(b, a) + changed_keys(b, a)).contains(k@) && a[k@]
            == v@,
    }
}

/// The key a planned action names.
pub open spec fn action_key(x: SyncAction) -> Seq<char> {
    match x {
        SyncAction::Delete(k) => k@,
        SyncAction::Write(k, _) => k@,
    }
}

/// Diff completeness: the removed, added, changed and unchanged key
/// sets are pairwise disjoint and together cover exactly the union of
/// the two maps' key sets.
pub proof fn lemma_diff_partition(b: Map<Seq<char>, Seq<char>>, a: Map<Seq<char>, Seq<char>>)
    ensures
        removed_keys(b, a) + added_keys(b, a) + changed_keys(b, a) + unchanged_keys(b, a)
            =~= b.dom() + a.dom(),
        removed_keys(b, a).disjoint(added_keys(b, a)),
        removed_keys(b, a).disjoint(changed_keys(b, a)),
        removed_keys(b, a).disjoint(unchanged_keys(b, a)),
        added_keys(b, a).disjoint(changed_keys(b, a)),
        added_keys(b, a).disjoint(unchanged_keys(b, a)),
        changed_keys(b, a).disjoint(unchanged_keys(b, a)),
{
}

/// Plans the mutations that move a store holding `before` to `after`:
/// one `Delete` for each removed key, one `Write` for each added or
/// changed key, each affected key named by exactly one action, and all
/// deletes ahead of all writes. Planning a map against itself yields
/// nothing.
#[verifier::loop_isolation(false)]
pub fn plan_update(before: &FlatMap, after: &FlatMap) -> (r: Vec<SyncAction>)
    requires
        before.wf(),
        after.wf(),
    ensures
        forall|i: int|
            0 <= i < r@.len() ==> planned_action_ok(before@, after@, #[trigger] r@[i]),
        forall|k: Seq<char>|
            removed_keys(before@, after@).contains(k) ==> exists|i: int|
                0 <= i < r@.len() && (#[trigger] r@[i] matches SyncAction::Delete(s) && s@ == k),
        forall|k: Seq<char>|
            (added_keys(before@, after@) + changed_keys(before@, after@)).contains(k)
                ==> exists|i: int|
                0 <= i < r@.len() && (#[trigger] r@[i] matches SyncAction::Write(s, v) && s@ == k
                    && v@ == after@[k]),
        forall|i: int, j: int|
            0 <= i < j < r@.len() && r@[j] is Delete ==> r@[i] is Delete,
        forall|i: int, j: int|
            0 <= i < j < r@.len() ==> #[trigger] action_key(r@[i]) != #[trigger] action_key(r@[j]),
        before@ == after@ ==> r@.len() == 0,
{
    let mut r: Vec<SyncAction> = Vec::new();
    let b_items = before.items();
    let a_items = after.items();

    let mut t: usize = 0;
    while t < b_items.len()
        invariant
            0 <= t <= b_items@.len(),
            forall|i: int| 0 <= i < r@.len() ==> r@[i] is Delete,
            forall|i: int|
                0 <= i < r@.len() ==> planned_action_ok(before@, after@, #[trigger] r@[i]),
            forall|u: int|
                0 <= u < t && !after@.contains_key((#[trigger] b_items@[u]).0@) ==> exists|i: int|
                    0 <= i < r@.len() && (#[trigger] r@[i] matches SyncAction::Delete(s) && s@
                        == b_items@[u].0@),
            forall|i: int, j: int|
                0 <= i < j < r@.len() ==> #[trigger] action_key(r@[i]) != #[trigger] action_key(
                    r@[j],
                ),
            forall|i: int|
                0 <= i < r@.len() ==> exists|u: int|
                    0 <= u < t && #[trigger] action_key(r@[i]) == (#[trigger] b_items@[u]).0@,
            before@ == after@ ==> r@.len() == 0,
        decreases b_items@.len() - t,
    {
        if !after.contains_key(&b_items[t].0) {
            let ghost r0 = r@;
            r.push(SyncAction::Delete(b_items[t].0.clone()));
            proof {
                assert(forall|i: int| 0 <= i < r0.len() ==> r@[i] == r0[i]);
                assert(r@[r0.len() as int] matches SyncAction::Delete(s) && s@ == b_items@[
                    t as int
                ].0@);
                assert(action_key(r@[r0.len() as int]) == b_items@[t as int].0@);
                assert forall|i: int| 0 <= i < r0.len() implies action_key(r@[i]) != b_items@[
                    t as int
                ].0@ by {
                    let u = choose|u: int|
                        0 <= u < t && action_key(r0[i]) == (#[trigger] b_items@[u]).0@;
                    assert(b_items@[u].0@ != b_items@[t as int].0@);
                }
            }
        }
        t = t + 1;
    }
    proof {
        assert forall|k: Seq<char>| removed_keys(before@, after@).contains(k) implies exists|i: int|
            0 <= i < r@.len() && (#[trigger] r@[i] matches SyncAction::Delete(s) && s@ == k) by {
            let u = choose|u: int| 0 <= u < b_items@.len() && (#[trigger] b_items@[u]).0@ == k;
            assert(!after@.contains_key(b_items@[u].0@));
        }
    }
    let ghost deletes_len = r@.len() as int;

    let mut t: usize = 0;
    while t < a_items.len()
        invariant
            0 <= t <= a_items@.len(),
            deletes_len <= r@.len(),
            forall|i: int| 0 <= i < deletes_len ==> r@[i] is Delete,
            forall|i: int| deletes_len <= i < r@.len() ==> r@[i] is Write,
            forall|i: int|
                0 <= i < r@.len() ==> planned_action_ok(before@, after@, #[trigger] r@[i]),
            forall|k: Seq<char>|
                removed_keys(before@, after@).contains(k) ==> exists|i: int|
                    0 <= i < r@.len() && (#[trigger] r@[i] matches SyncAction::Delete(s) && s@ == k),
            forall|u: int|
                0 <= u < t && (added_keys(before@, after@) + changed_keys(before@, after@)).contains(
                    (#[trigger] a_items@[u]).0@,
                ) ==> exists|i: int|
                    0 <= i < r@.len() && (#[trigger] r@[i] matches SyncAction::Write(s, v) && s@
                        == a_items@[u].0@ && v@ == after@[a_items@[u].0@]),
            forall|i: int, j: int|
                0 <= i < j < r@.len() ==> #[trigger] action_key(r@[i]) != #[trigger] action_key(
                    r@[j],
                ),
            forall|i: int|
                deletes_len <= i < r@.len() ==> exists|u: int|
                    0 <= u < t && #[trigger] action_key(r@[i]) == (#[trigger] a_items@[u]).0@,
            before@ == after@ ==> r@.len() == 0,
        decreases a_items@.len() - t,
    {
        let key_in_before = before.get(&a_items[t].0);
        let differs: bool = match key_in_before {
            Option::None => true,
            Option::Some(bv) => *bv != a_items[t].1,
        };
        if differs {
            let ghost r0 = r@;
            r.push(SyncAction::Write(a_items[t].0.clone(), a_items[t].1.clone()));
            proof {
                assert(forall|i: int| 0 <= i < r0.len() ==> r@[i] == r0[i]);
                assert(r@[r0.len() as int] matches SyncAction::Write(s, v) && s@ == a_items@[
                    t as int
                ].0@ && v@ == a_items@[t as int].1@);
                let ghost newk = a_items@[t as int].0@;
                assert(action_key(r@[r0.len() as int]) == newk);
                assert((added_keys(before@, after@) + changed_keys(before@, after@)).contains(
                    newk,
                ));
                assert forall|i: int| 0 <= i < r0.len() implies action_key(r@[i]) != newk by {
                    if i < deletes_len {
                        assert(removed_keys(before@, after@).contains(action_key(r0[i]))) by {
                            assert(planned_action_ok(before@, after@, r0[i]));
                            assert(r0[i] is Delete);
                        }
                        assert(!removed_keys(before@, after@).contains(newk));
                    } else {
                        let u = choose|u: int|
                            0 <= u < t && action_key(r0[i]) == (#[trigger] a_items@[u]).0@;
                        assert(a_items@[u].0@ != a_items@[t as int].0@);
                    }
                }
            }
        } else {
            proof {
                assert(!(added_keys(before@, after@) + changed_keys(before@, after@)).contains(
                    a_items@[t as int].0@,
                ));
            }
        }
        t = t + 1;
    }
    proof {
        assert forall|k: Seq<char>|
            (added_keys(before@, after@) + changed_keys(before@, after@)).contains(
                k,
            ) implies exists|i: int|
            0 <= i < r@.len() && (#[trigger] r@[i] matches SyncAction::Write(s, v) && s@ == k && v@
                == after@[k]) by {
            let u = choose|u: int| 0 <= u < a_items@.len() && (#[trigger] a_items@[u]).0@ == k;
            assert((added_keys(before@, after@) + changed_keys(before@, after@)).contains(
                a_items@[u].0@,
            ));
        }
    }
    r
}

} // verus!
