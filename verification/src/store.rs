//! The document-store engine's durable side: the file operations a mutating
//! call asks the storage layer to perform, the meaning of running such a plan
//! against a set of files, and the transition functions that the index-level
//! contracts of the engine are stated over.
//!
//! The central claim proved here and used by every mutating operation of the
//! catalog: starting from a file set that mirrors the old index, running the
//! returned plan yields a file set that mirrors the new index — the in-memory
//! index stays consistent with one-file-per-record durable storage.

use vstd::prelude::*;

verus! {

/// One durable file operation, named by record id. A `Write` stores the
/// record currently indexed under the id; a `Delete` removes the id's file.
#[derive(Debug)]
pub enum FileOp {
    Write(String),
    Delete(String),
}

/// The file set after performing `op`, where `idx` is the index the written
/// content is taken from.
pub open spec fn apply_op<V>(
    files: Map<Seq<char>, V>,
    idx: Map<Seq<char>, V>,
    op: FileOp,
) -> Map<Seq<char>, V> {
    match op {
        FileOp::Write(id) => files.insert(id@, idx[id@]),
        FileOp::Delete(id) => files.remove(id@),
    }
}

/// The file set after performing `ops` in order.
pub open spec fn apply_ops<V>(
    files: Map<Seq<char>, V>,
    idx: Map<Seq<char>, V>,
    ops: Seq<FileOp>,
) -> Map<Seq<char>, V>
    decreases ops.len(),
{
    if ops.len() == 0 {
        files
    } else {
        apply_op(apply_ops(files, idx, ops.drop_last()), idx, ops.last())
    }
}

/// Whether a create of `id` succeeds on index `m`.
pub open spec fn spec_create_ok<V>(m: Map<Seq<char>, V>, id: Seq<char>) -> bool {
    !m.contains_key(id)
}

/// The index after a create of `(id, v)`: inserted when fresh, untouched on a
/// conflict.
pub open spec fn spec_create<V>(m: Map<Seq<char>, V>, id: Seq<char>, v: V) -> Map<Seq<char>, V> {
    if m.contains_key(id) {
        m
    } else {
        m.insert(id, v)
    }
}

/// Whether a delete of `id` succeeds on index `m`.
pub open spec fn spec_delete_ok<V>(m: Map<Seq<char>, V>, id: Seq<char>) -> bool {
    m.contains_key(id)
}

/// The index after a delete of `id`.
pub open spec fn spec_delete<V>(m: Map<Seq<char>, V>, id: Seq<char>) -> Map<Seq<char>, V> {
    m.remove(id)
}

/// Whether a replace of `old_id` by `(new_id, v)` succeeds on index `m`: it
/// fails only when `new_id` is occupied by a record other than `old_id`'s.
pub open spec fn spec_replace_ok<V>(
    m: Map<Seq<char>, V>,
    old_id: Seq<char>,
    new_id: Seq<char>,
) -> bool {
    !m.contains_key(new_id) || old_id == new_id
}

/// The index after a replace: an in-place overwrite when the id is kept, an
/// insert of the new id followed by a removal of the old one on a rename, and
/// no change on a conflict.
pub open spec fn spec_replace<V>(
    m: Map<Seq<char>, V>,
    old_id: Seq<char>,
    new_id: Seq<char>,
    v: V,
) -> Map<Seq<char>, V> {
    if m.contains_key(new_id) {
        if old_id == new_id {
            m.insert(new_id, v)
        } else {
            m
        }
    } else {
        m.insert(new_id, v).remove(old_id)
    }
}

/// Creating a record under a fresh id succeeds, and a read of that id
/// afterwards yields exactly the record that was stored.
pub proof fn lemma_create_then_get<V>(m: Map<Seq<char>, V>, id: Seq<char>, v: V)
    requires
        !m.contains_key(id),
    ensures
        spec_create_ok(m, id),
        spec_create(m, id, v).contains_key(id),
        spec_create(m, id, v)[id] == v,
{
}

/// A create that collides with a present id changes nothing: the store still
/// answers with the original record, not the rejected one.
pub proof fn lemma_create_conflict<V>(m: Map<Seq<char>, V>, id: Seq<char>, v: V)
    requires
        m.contains_key(id),
    ensures
        !spec_create_ok(m, id),
        spec_create(m, id, v) == m,
        spec_create(m, id, v)[id] == m[id],
{
}

/// Deleting an absent id fails, leaves the index as it was, and — since no
/// file operation is planned — leaves every file untouched.
pub proof fn lemma_delete_absent<V>(m: Map<Seq<char>, V>, files: Map<Seq<char>, V>, id: Seq<char>)
    requires
        !m.contains_key(id),
    ensures
        !spec_delete_ok(m, id),
        spec_delete(m, id) =~= m,
        apply_ops(files, m, Seq::<FileOp>::empty()) == files,
{
}

/// Renaming a record: afterwards the old id is gone and the new id holds the
/// record; and because the plan writes the new file before it deletes the old
/// one, an interruption between the two steps leaves both files present —
/// never neither.
pub proof fn lemma_replace_rename<V>(
    m: Map<Seq<char>, V>,
    files: Map<Seq<char>, V>,
    old_id: String,
    new_id: String,
    v: V,
)
    requires
        old_id@ != new_id@,
        !m.contains_key(new_id@),
    ensures
        spec_replace_ok(m, old_id@, new_id@),
        !spec_replace(m, old_id@, new_id@, v).contains_key(old_id@),
        spec_replace(m, old_id@, new_id@, v).contains_key(new_id@),
        spec_replace(m, old_id@, new_id@, v)[new_id@] == v,
        ({
            let m2 = spec_replace(m, old_id@, new_id@, v);
            let plan = seq![FileOp::Write(new_id), FileOp::Delete(old_id)];
            let mid = apply_ops(files, m2, plan.take(1));
            &&& mid.contains_key(new_id@)
            &&& files.contains_key(old_id@) ==> mid.contains_key(old_id@)
            &&& files == m ==> apply_ops(files, m2, plan) =~= m2
        }),
{
    let m2 = spec_replace(m, old_id@, new_id@, v);
    let plan = seq![FileOp::Write(new_id), FileOp::Delete(old_id)];
    let mid = apply_ops(files, m2, plan.take(1));
    assert(plan.take(1).len() == 1);
    assert(plan.take(1).drop_last().len() == 0);
    assert(apply_ops(files, m2, plan.take(1).drop_last()) == files);
    assert(plan.take(1).last() == FileOp::Write(new_id));
    assert(mid == files.insert(new_id@, m2[new_id@]));
    assert(plan.drop_last() =~= plan.take(1));
    assert(plan.last() == FileOp::Delete(old_id));
    assert(apply_ops(files, m2, plan) == mid.remove(old_id@));
    if files == m {
        assert(mid.remove(old_id@) =~= m2);
    }
}

/// The map after inserting every pair of `entries`, in order.
pub open spec fn inserted_all<V>(
    m: Map<Seq<char>, V>,
    entries: Seq<(Seq<char>, V)>,
) -> Map<Seq<char>, V>
    decreases entries.len(),
{
    if entries.len() == 0 {
        m
    } else {
        inserted_all(m, entries.drop_last()).insert(entries.last().0, entries.last().1)
    }
}

/// The ids of `entries` are pairwise distinct and none is held by `m`.
pub open spec fn fresh_distinct_ids<V>(m: Map<Seq<char>, V>, entries: Seq<(Seq<char>, V)>) -> bool {
    (forall|i: int, j: int| 0 <= i < j < entries.len() ==> entries[i].0 != entries[j].0)
        && (forall|i: int| 0 <= i < entries.len() ==> !m.contains_key(#[trigger] entries[i].0))
}

/// Which keys `inserted_all` holds.
pub proof fn lemma_inserted_all_contains<V>(
    m: Map<Seq<char>, V>,
    entries: Seq<(Seq<char>, V)>,
    k: Seq<char>,
)
    ensures
        inserted_all(m, entries).contains_key(k) <==> m.contains_key(k) || exists|i: int|
            0 <= i < entries.len() && entries[i].0 == k,
    decreases entries.len(),
{
    if entries.len() > 0 {
        let t = entries.drop_last();
        lemma_inserted_all_contains(m, t, k);
        if entries.last().0 == k {
            assert(entries[entries.len() - 1].0 == k);
        } else {
            if exists|i: int| 0 <= i < t.len() && t[i].0 == k {
                let i = choose|i: int| 0 <= i < t.len() && t[i].0 == k;
                assert(entries[i].0 == k);
            }
            if exists|i: int| 0 <= i < entries.len() && entries[i].0 == k {
                let i = choose|i: int| 0 <= i < entries.len() && entries[i].0 == k;
                assert(t[i].0 == k);
            }
        }
    }
}

/// However a burst of creates with pairwise distinct fresh ids is serialized,
/// every one of them runs against an index that does not hold its id yet — so
/// each is a `spec_create` that succeeds — and afterwards the index holds
/// exactly the old records plus one record per create, nothing else.
pub proof fn lemma_distinct_creates_all_succeed<V>(
    m: Map<Seq<char>, V>,
    entries: Seq<(Seq<char>, V)>,
)
    requires
        m.dom().finite(),
        fresh_distinct_ids(m, entries),
    ensures
        forall|j: int|
            0 <= j < entries.len() ==> spec_create_ok(
                inserted_all(m, entries.take(j)),
                #[trigger] entries[j].0,
            ),
        forall|j: int|
            0 <= j < entries.len() ==> inserted_all(m, #[trigger] entries.take(j + 1))
                == spec_create(inserted_all(m, entries.take(j)), entries[j].0, entries[j].1),
        inserted_all(m, entries).dom().finite(),
        inserted_all(m, entries).len() == m.len() + entries.len(),
        forall|j: int|
            0 <= j < entries.len() ==> inserted_all(m, entries).contains_key(
                #[trigger] entries[j].0,
            ) && inserted_all(m, entries)[entries[j].0] == entries[j].1,
        forall|k: Seq<char>|
            m.contains_key(k) ==> inserted_all(m, entries).contains_key(k),
        forall|k: Seq<char>|
            m.contains_key(k) && !(exists|i: int| 0 <= i < entries.len() && entries[i].0 == k)
                ==> inserted_all(m, entries)[k] == m[k],
    decreases entries.len(),
{
    assert forall|j: int| 0 <= j < entries.len() implies spec_create_ok(
        inserted_all(m, entries.take(j)),
        #[trigger] entries[j].0,
    ) by {
        lemma_inserted_all_contains(m, entries.take(j), entries[j].0);
    }
    assert forall|j: int| 0 <= j < entries.len() implies inserted_all(
        m,
        #[trigger] entries.take(j + 1),
    ) == spec_create(inserted_all(m, entries.take(j)), entries[j].0, entries[j].1) by {
        lemma_inserted_all_contains(m, entries.take(j), entries[j].0);
        assert(entries.take(j + 1).drop_last() =~= entries.take(j));
        assert(entries.take(j + 1).last() == entries[j]);
    }
    if entries.len() > 0 {
        let t = entries.drop_last();
        let last = entries.last();
        assert(fresh_distinct_ids(m, t));
        lemma_distinct_creates_all_succeed(m, t);
        lemma_inserted_all_contains(m, t, last.0);
        assert(forall|i: int| 0 <= i < t.len() ==> t[i].0 != last.0);
        assert(!inserted_all(m, t).contains_key(last.0));
        assert(inserted_all(m, entries).dom() =~= inserted_all(m, t).dom().insert(last.0));
        assert forall|j: int|
            0 <= j < entries.len() implies inserted_all(m, entries).contains_key(
            #[trigger] entries[j].0,
        ) && inserted_all(m, entries)[entries[j].0] == entries[j].1 by {
            if j < entries.len() - 1 {
                assert(t[j] == entries[j]);
                assert(entries[j].0 != last.0);
            }
        }
        assert forall|k: Seq<char>|
            m.contains_key(k) && !(exists|i: int|
                0 <= i < entries.len() && entries[i].0 == k) implies inserted_all(m, entries)[k]
            == m[k] by {
            assert(forall|i: int| 0 <= i < t.len() ==> t[i].0 != k);
            assert(last.0 != k);
        }
    }
}

} // verus!
