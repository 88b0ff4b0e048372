//! What holds of the record store over one operation and over whole
//! histories of operations, proved from the meaning of the operations.

use crate::entry::EntryView;
use crate::store::{
    clear_sentinel, created, has_id, lemma_create_keeps_storable, lemma_delete_keeps_storable,
    lemma_max_id_bounds, lemma_position_is, lemma_position_range, lemma_update_keeps_storable,
    lookup, max_id, position, removed, storable, unique_ids, update_fault, updated, writable,
};
use vstd::prelude::*;

verus! {

/// One operation that may change the store.
pub enum Step {
    /// `create` with a draft.
    Create(EntryView),
    /// `update` of an identifier with a patch, at a time.
    Update(u16, EntryView, u64),
    /// `delete` of an identifier.
    Delete(u16),
}

/// The operation creates a record: it is a `create` whose draft can be
/// written.
pub open spec fn creates(s: Step) -> bool {
    s matches Step::Create(draft) && writable(draft)
}

/// The store after one operation. An operation that is refused leaves the
/// store as it is: a draft or a patch that cannot be written, an update or
/// a delete of an identifier that no record has.
pub open spec fn step(records: Seq<EntryView>, s: Step) -> Seq<EntryView> {
    match s {
        Step::Create(draft) => if writable(draft) {
            records.push(created(records, draft))
        } else {
            records
        },
        Step::Update(id, patch, now) => if update_fault(records, id, patch) is None {
            updated(records, id, patch, now)
        } else {
            records
        },
        Step::Delete(id) => if has_id(records, id) {
            removed(records, id)
        } else {
            records
        },
    }
}

/// The store that a history of operations makes of the empty store.
pub open spec fn replay(steps: Seq<Step>) -> Seq<EntryView>
    decreases steps.len(),
{
    if steps.len() == 0 {
        Seq::empty()
    } else {
        step(replay(steps.drop_last()), steps.last())
    }
}

/// How many records a history has created.
pub open spec fn issued(steps: Seq<Step>) -> nat
    decreases steps.len(),
{
    if steps.len() == 0 {
        0
    } else if creates(steps.last()) {
        issued(steps.drop_last()) + 1
    } else {
        issued(steps.drop_last())
    }
}

/// The identifiers whose records a history has deleted.
pub open spec fn deleted(steps: Seq<Step>) -> Set<u16>
    decreases steps.len(),
{
    if steps.len() == 0 {
        Set::empty()
    } else {
        let before = deleted(steps.drop_last());
        match steps.last() {
            Step::Delete(id) => if has_id(replay(steps.drop_last()), id) {
                before.insert(id)
            } else {
                before
            },
            _ => before,
        }
    }
}

/// No record of the history is created after the record created last
/// before it was deleted.
pub open spec fn newest_kept(steps: Seq<Step>) -> bool
    decreases steps.len(),
{
    if steps.len() == 0 {
        true
    } else {
        let before = steps.drop_last();
        newest_kept(before) && (creates(steps.last()) ==> !deleted(before).contains(
            issued(before) as u16,
        ))
    }
}

/// The identifiers from 1 to `n`.
pub open spec fn one_to(n: nat) -> Set<u16> {
    Set::new(|id: u16| 1 <= id <= n)
}

/// The identifiers of the records, in the order of the store.
pub open spec fn ids(records: Seq<EntryView>) -> Seq<u16> {
    records.map_values(|e: EntryView| e.id)
}

/// An identifier is in the store exactly if some record carries it.
pub proof fn lemma_has_id(records: Seq<EntryView>, id: u16)
    ensures
        has_id(records, id) <==> exists|i: int|
            0 <= i < records.len() && (#[trigger] records[i]).id == id,
{
    lemma_position_range(records, id);
    if has_id(records, id) {
        assert(records[position(records, id)].id == id);
    }
}

/// `create` gives the new record an identifier that no record has, one
/// more than the largest, and so keeps the identifiers distinct.
pub proof fn lemma_create_keeps_unique(records: Seq<EntryView>, draft: EntryView)
    requires
        unique_ids(records),
        max_id(records) < u16::MAX,
    ensures
        created(records, draft).id == max_id(records) + 1,
        !has_id(records, created(records, draft).id),
        unique_ids(records.push(created(records, draft))),
        max_id(records.push(created(records, draft))) == max_id(records) + 1,
        forall|id: u16|
            has_id(#[trigger] records.push(created(records, draft)), id) <==> (has_id(records, id)
                || id == max_id(records) + 1),
{
    let new = created(records, draft);
    let after = records.push(new);
    lemma_max_id_bounds(records);
    lemma_has_id(records, new.id);
    assert(after.drop_last() =~= records);
    assert forall|i: int, j: int| 0 <= i < j < after.len() implies (#[trigger] after[i]).id != (
    #[trigger] after[j]).id by {
        if j < records.len() {
            assert(after[i] == records[i] && after[j] == records[j]);
        } else {
            assert(after[i] == records[i]);
        }
    }
    assert forall|id: u16| has_id(after, id) <==> (has_id(records, id) || id == max_id(records)
        + 1) by {
        lemma_has_id(records, id);
        lemma_has_id(after, id);
        if has_id(records, id) {
            let i = choose|i: int| 0 <= i < records.len() && (#[trigger] records[i]).id == id;
            assert(after[i].id == id);
        }
        if id == max_id(records) + 1 {
            assert(after[after.len() - 1].id == id);
        }
        if has_id(after, id) {
            let i = choose|i: int| 0 <= i < after.len() && (#[trigger] after[i]).id == id;
            if i < records.len() {
                assert(records[i].id == id);
            }
        }
    }
}

/// `update` changes no identifier: every record keeps its place and its
/// identifier.
pub proof fn lemma_update_keeps_ids(
    records: Seq<EntryView>,
    id: u16,
    patch: EntryView,
    now: u64,
)
    requires
        has_id(records, id),
    ensures
        ids(updated(records, id, patch, now)) == ids(records),
        unique_ids(records) ==> unique_ids(updated(records, id, patch, now)),
        max_id(updated(records, id, patch, now)) == max_id(records),
        forall|other: u16|
            has_id(#[trigger] updated(records, id, patch, now), other) <==> has_id(records, other),
        position(updated(records, id, patch, now), id) == position(records, id),
{
    let after = updated(records, id, patch, now);
    lemma_position_range(records, id);
    assert(ids(after) =~= ids(records));
    assert forall|i: int| 0 <= i < records.len() implies (#[trigger] after[i]).id
        == records[i].id by {
        assert(ids(after)[i] == ids(records)[i]);
    }
    lemma_same_ids(records, after);
    assert forall|other: u16| has_id(after, other) <==> has_id(records, other) by {
        lemma_same_ids_position(records, after, other);
    }
    lemma_same_ids_position(records, after, id);
}

/// Stores whose records carry the same identifiers in the same places
/// agree on whether the identifiers are distinct, and on the largest.
pub proof fn lemma_same_ids(a: Seq<EntryView>, b: Seq<EntryView>)
    requires
        ids(a) == ids(b),
    ensures
        unique_ids(a) <==> unique_ids(b),
        max_id(a) == max_id(b),
    decreases a.len(),
{
    assert(a.len() == ids(a).len() && b.len() == ids(b).len());
    assert forall|i: int| 0 <= i < a.len() implies (#[trigger] a[i]).id == b[i].id by {
        assert(ids(a)[i] == a[i].id);
        assert(ids(b)[i] == b[i].id);
    }
    if unique_ids(a) {
        assert forall|i: int, j: int| 0 <= i < j < b.len() implies (#[trigger] b[i]).id != (
        #[trigger] b[j]).id by {
            assert(a[i].id == b[i].id && a[j].id == b[j].id);
        }
    }
    if unique_ids(b) {
        assert forall|i: int, j: int| 0 <= i < j < a.len() implies (#[trigger] a[i]).id != (
        #[trigger] a[j]).id by {
            assert(a[i].id == b[i].id && a[j].id == b[j].id);
        }
    }
    if a.len() > 0 {
        assert(ids(a.drop_last()) =~= ids(a).drop_last());
        assert(ids(b.drop_last()) =~= ids(b).drop_last());
        lemma_same_ids(a.drop_last(), b.drop_last());
        assert(a.last().id == b.last().id);
    }
}

/// Stores whose records carry the same identifiers in the same places find
/// each identifier at the same place.
pub proof fn lemma_same_ids_position(a: Seq<EntryView>, b: Seq<EntryView>, id: u16)
    requires
        ids(a) == ids(b),
    ensures
        position(a, id) == position(b, id),
        has_id(a, id) <==> has_id(b, id),
{
    assert(a.len() == ids(a).len() && b.len() == ids(b).len());
    lemma_position_range(a, id);
    let at = position(a, id);
    assert forall|j: int| 0 <= j < at implies (#[trigger] b[j]).id != id by {
        assert(ids(a)[j] == a[j].id);
        assert(ids(b)[j] == b[j].id);
        assert(a[j].id != id);
    }
    if at < a.len() {
        assert(ids(a)[at] == a[at].id);
        assert(ids(b)[at] == b[at].id);
    }
    lemma_position_is(b, id, at);
}

/// Delete-then-lookup: where identifiers are distinct, the store after a
/// `delete` that found its record has one record fewer and none with that
/// identifier; every other identifier stays.
pub proof fn lemma_delete_then_lookup(records: Seq<EntryView>, id: u16)
    requires
        unique_ids(records),
        has_id(records, id),
    ensures
        !has_id(removed(records, id), id),
        removed(records, id).len() == records.len() - 1,
        unique_ids(removed(records, id)),
        forall|other: u16|
            has_id(#[trigger] removed(records, id), other) <==> (has_id(records, other) && other
                != id),
{
    let at = position(records, id);
    let after = removed(records, id);
    lemma_position_range(records, id);
    assert forall|i: int| 0 <= i < after.len() implies #[trigger] after[i] == (if i < at {
        records[i]
    } else {
        records[i + 1]
    }) by {}
    assert forall|i: int, j: int| 0 <= i < j < after.len() implies (#[trigger] after[i]).id != (
    #[trigger] after[j]).id by {
        let si = if i < at {
            i
        } else {
            i + 1
        };
        let sj = if j < at {
            j
        } else {
            j + 1
        };
        assert(after[i] == records[si] && after[j] == records[sj]);
    }
    assert forall|other: u16| has_id(after, other) <==> (has_id(records, other) && other
        != id) by {
        lemma_has_id(records, other);
        lemma_has_id(after, other);
        if has_id(after, other) {
            let i = choose|i: int| 0 <= i < after.len() && (#[trigger] after[i]).id == other;
            let si = if i < at {
                i
            } else {
                i + 1
            };
            assert(after[i] == records[si]);
            assert(records[si].id == other);
            if other == id {
                assert(records[at].id == id);
                if si < at {
                    assert(records[si].id != records[at].id);
                } else {
                    assert(records[at].id != records[si].id);
                }
            }
        }
        if has_id(records, other) && other != id {
            let i = choose|i: int| 0 <= i < records.len() && (#[trigger] records[i]).id == other;
            assert(i != at);
            let t = if i < at {
                i
            } else {
                i - 1
            };
            assert(after[t] == records[i]);
            assert(after[t].id == other);
        }
    }
}

/// Update-clear: an update whose patch gives the clear sentinel as address
/// leaves the record with an empty address, and likewise for the e-mail.
pub proof fn lemma_update_clears(records: Seq<EntryView>, id: u16, patch: EntryView, now: u64)
    requires
        has_id(records, id),
    ensures
        has_id(updated(records, id, patch, now), id),
        patch.address == clear_sentinel() ==> lookup(
            updated(records, id, patch, now),
            id,
        ).address == Seq::<char>::empty(),
        patch.e_mail == clear_sentinel() ==> lookup(
            updated(records, id, patch, now),
            id,
        ).e_mail == Seq::<char>::empty(),
{
    lemma_update_keeps_ids(records, id, patch, now);
    lemma_position_range(records, id);
}

/// Every operation keeps the identifiers distinct.
pub proof fn lemma_step_keeps_unique(records: Seq<EntryView>, s: Step)
    requires
        unique_ids(records),
        creates(s) ==> max_id(records) < u16::MAX,
    ensures
        unique_ids(step(records, s)),
{
    match s {
        Step::Create(draft) => {
            if writable(draft) {
                lemma_create_keeps_unique(records, draft);
            }
        },
        Step::Update(id, patch, now) => {
            if update_fault(records, id, patch) is None {
                lemma_update_keeps_ids(records, id, patch, now);
            }
        },
        Step::Delete(id) => {
            if has_id(records, id) {
                lemma_delete_then_lookup(records, id);
            }
        },
    }
}

/// No operation lets a separator into a text field: a store that can be
/// written stays so.
pub proof fn lemma_step_keeps_storable(records: Seq<EntryView>, s: Step)
    requires
        storable(records),
    ensures
        storable(step(records, s)),
{
    match s {
        Step::Create(draft) => {
            if writable(draft) {
                lemma_create_keeps_storable(records, draft);
            }
        },
        Step::Update(id, patch, now) => {
            if update_fault(records, id, patch) is None {
                lemma_update_keeps_storable(records, id, patch, now);
            }
        },
        Step::Delete(id) => {
            if has_id(records, id) {
                lemma_delete_keeps_storable(records, id);
            }
        },
    }
}

/// Whatever the history, the store that it makes of the empty store can be
/// written: no text field of any record holds a separator.
pub proof fn lemma_history_storable(steps: Seq<Step>)
    ensures
        storable(replay(steps)),
    decreases steps.len(),
{
    if steps.len() > 0 {
        lemma_history_storable(steps.drop_last());
        lemma_step_keeps_storable(replay(steps.drop_last()), steps.last());
    }
}

/// Uniqueness over a history: starting from the empty store, as long as no
/// record is created after the newest one was deleted, the identifiers in
/// the store are distinct, and they are the identifiers from 1 to the
/// number of records created, without those deleted. The largest of them is
/// that number while the newest record is kept.
pub proof fn lemma_history(steps: Seq<Step>)
    requires
        newest_kept(steps),
        issued(steps) <= u16::MAX,
    ensures
        unique_ids(replay(steps)),
        forall|id: u16|
            has_id(replay(steps), id) <==> (one_to(issued(steps)).contains(id) && !deleted(
                steps,
            ).contains(id)),
        forall|id: u16| #[trigger] deleted(steps).contains(id) ==> one_to(issued(steps)).contains(id),
        !deleted(steps).contains(issued(steps) as u16) ==> max_id(replay(steps)) == issued(steps),
    decreases steps.len(),
{
    let records = replay(steps);
    if steps.len() == 0 {
        assert forall|id: u16| !has_id(records, id) by {
            lemma_has_id(records, id);
        }
    } else {
        let before = steps.drop_last();
        let old_records = replay(before);
        let n = issued(before);
        lemma_history(before);
        match steps.last() {
            Step::Create(draft) => {
                if writable(draft) {
                    assert(max_id(old_records) == n);
                    lemma_create_keeps_unique(old_records, draft);
                    assert forall|id: u16| has_id(records, id) <==> (one_to(
                        issued(steps),
                    ).contains(id) && !deleted(steps).contains(id)) by {
                        assert(has_id(old_records.push(created(old_records, draft)), id) <==> (
                        has_id(old_records, id) || id == n + 1));
                        if id == n + 1 {
                            assert(!one_to(n).contains(id));
                        }
                    }
                }
            },
            Step::Update(id, patch, now) => {
                if update_fault(old_records, id, patch) is None {
                    lemma_update_keeps_ids(old_records, id, patch, now);
                    assert forall|other: u16| has_id(records, other) <==> has_id(
                        old_records,
                        other,
                    ) by {
                        assert(has_id(updated(old_records, id, patch, now), other) <==> has_id(
                            old_records,
                            other,
                        ));
                    }
                }
            },
            Step::Delete(id) => {
                if has_id(old_records, id) {
                    lemma_delete_then_lookup(old_records, id);
                    assert forall|other: u16| has_id(records, other) <==> (has_id(
                        old_records,
                        other,
                    ) && other != id) by {
                        assert(has_id(removed(old_records, id), other) <==> (has_id(
                            old_records,
                            other,
                        ) && other != id));
                    }
                    if !deleted(steps).contains(n as u16) {
                        lemma_max_id_when_newest_kept(records, n);
                    }
                }
            },
        }
    }
}

/// The largest identifier is `n` where every identifier is at most `n` and
/// `n` itself is in the store, or the store is empty and `n` is zero.
pub proof fn lemma_max_id_when_newest_kept(records: Seq<EntryView>, n: nat)
    requires
        n <= u16::MAX,
        forall|id: u16| has_id(records, id) ==> 1 <= id <= n,
        n > 0 ==> has_id(records, n as u16),
    ensures
        max_id(records) == n,
{
    lemma_max_id_bounds(records);
    if records.len() > 0 {
        let w = choose|i: int| 0 <= i < records.len() && (#[trigger] records[i]).id == max_id(
            records,
        );
        lemma_has_id(records, records[w].id);
        assert(has_id(records, records[w].id));
        if n > 0 {
            lemma_has_id(records, n as u16);
        }
    } else {
        if n > 0 {
            lemma_has_id(records, n as u16);
        }
    }
}

/// From the empty store, creating `n` records and doing nothing else gives
/// them the identifiers 1 to `n`, in this order.
pub proof fn lemma_creates_count_up(steps: Seq<Step>)
    requires
        forall|k: int| 0 <= k < steps.len() ==> creates(#[trigger] steps[k]),
        steps.len() <= u16::MAX,
    ensures
        replay(steps).len() == steps.len(),
        forall|k: int| 0 <= k < steps.len() ==> (#[trigger] replay(steps)[k]).id == k + 1,
        max_id(replay(steps)) == steps.len(),
    decreases steps.len(),
{
    if steps.len() > 0 {
        let before = steps.drop_last();
        assert forall|k: int| 0 <= k < before.len() implies creates(#[trigger] before[k]) by {
            assert(before[k] == steps[k]);
        }
        lemma_creates_count_up(before);
        assert(creates(steps[steps.len() - 1]));
        let old_records = replay(before);
        let draft = steps.last()->Create_0;
        let after = old_records.push(created(old_records, draft));
        assert(after.drop_last() =~= old_records);
        assert forall|k: int| 0 <= k < steps.len() implies (#[trigger] replay(steps)[k]).id == k
            + 1 by {
            if k < before.len() {
                assert(replay(steps)[k] == old_records[k]);
            }
        }
    }
}

} // verus!
