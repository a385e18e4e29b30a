//! Per-process semaphore table: the mapping from process-local identifiers to
//! shared semaphore-array handles, and the undo corrections replayed when the
//! process terminates.
use vstd::prelude::*;
use crate::{SemId, SemNum, SemOp, SysError};
use std::sync::Arc;

verus! {

/// A key-addressed semaphore array, created once per key and shared (through
/// `Arc`) by the global registry and by every process that opened that key.
/// The blocking counters themselves live with the semaphore primitive outside
/// this crate; the table tracks which arrays a process holds.
pub struct SemArray {
    /// The key under which the array was created.
    pub key: usize,
    /// Number of semaphores in the array.
    pub nsems: usize,
}

impl SemArray {
    /// A fresh array descriptor for `key` with `nsems` semaphores.
    pub fn new(key: usize, nsems: usize) -> (a: SemArray)
        ensures
            a.key == key,
            a.nsems == nsems,
    {
        SemArray { key, nsems }
    }
}

/// One accumulated undo correction: the table's record that the owning
/// process still owes `adjust` compensating units to semaphore `num` of the
/// array it opened under `id`.
#[derive(Clone, Copy)]
pub struct UndoEntry {
    pub id: SemId,
    pub num: SemNum,
    pub adjust: SemOp,
}

/// The accumulated undo value recorded for `(id, num)` in `s`: the `adjust`
/// of the first entry with that key, or 0 when no entry holds it.
pub open spec fn undo_lookup(s: Seq<UndoEntry>, id: SemId, num: SemNum) -> SemOp
    decreases s.len(),
{
    if s.len() == 0 {
        0
    } else if s[0].id == id && s[0].num == num {
        s[0].adjust
    } else {
        undo_lookup(s.drop_first(), id, num)
    }
}

/// Semaphore table in a process.
pub struct SemProc {
    /// Semaphore arrays held by this process, indexed by identifier.
    arrays: Vec<Option<Arc<SemArray>>>,
    /// Undo corrections to apply when the process terminates.
    undos: Vec<UndoEntry>,
}

impl SemProc {
    /// The identifier slots, in identifier order.
    pub closed spec fn arrays_seq(self) -> Seq<Option<Arc<SemArray>>> {
        self.arrays@
    }

    /// The recorded undo entries, in table order.
    pub closed spec fn undo_seq(self) -> Seq<UndoEntry> {
        self.undos@
    }

    /// Whether `id` currently names an array in this table.
    pub open spec fn sem_has_id(self, id: SemId) -> bool {
        id < self.arrays_seq().len() && self.arrays_seq()[id as int] is Some
    }

    /// The array held under `id`.
    pub open spec fn sem_at(self, id: SemId) -> Arc<SemArray>
        recommends
            self.sem_has_id(id),
    {
        self.arrays_seq()[id as int].unwrap()
    }

    /// The accumulated undo value recorded for `(id, num)`; 0 when unset.
    pub open spec fn undo_of(self, id: SemId, num: SemNum) -> SemOp {
        undo_lookup(self.undo_seq(), id, num)
    }

    /// Each `(id, num)` key holds at most one undo entry.
    pub open spec fn undo_keys_unique(self) -> bool {
        forall|i: int, j: int|
            0 <= i < j < self.undo_seq().len() ==> !(#[trigger] self.undo_seq()[i].id
                == #[trigger] self.undo_seq()[j].id && self.undo_seq()[i].num
                == self.undo_seq()[j].num)
    }

    /// An empty table: no arrays, no undo obligations.
    pub fn new() -> (p: SemProc)
        ensures
            p.arrays_seq().len() == 0,
            p.undo_seq().len() == 0,
            p.undo_keys_unique(),
    {
        SemProc { arrays: Vec::new(), undos: Vec::new() }
    }

    /// The smallest identifier not currently in use.
    fn get_free_id(&self) -> (id: SemId)
        ensures
            !self.sem_has_id(id),
            forall|j: SemId| j < id ==> self.sem_has_id(j),
            id <= self.arrays_seq().len(),
    {
        let mut i: usize = 0;
        while i < self.arrays.len()
            invariant
                i <= self.arrays@.len(),
                forall|j: SemId| j < i ==> self.sem_has_id(j),
            decreases self.arrays@.len() - i,
        {
            if self.arrays[i].is_none() {
                return i;
            }
            i = i + 1;
        }
        i
    }

    /// Insert the `array` and return its identifier: the smallest one free.
    pub fn add(&mut self, array: Arc<SemArray>) -> (id: SemId)
        ensures
            sem_add_post(*old(self), *final(self), array, id),
    {
        let id = self.get_free_id();
        if id < self.arrays.len() {
            self.arrays[id] = Some(array);
        } else {
            self.arrays.push(Some(array));
        }
        id
    }

    /// Get the semaphore array held under `id`: a cloned shared handle, or
    /// nothing when `id` names no array.
    pub fn get(&self, id: SemId) -> (r: Option<Arc<SemArray>>)
        ensures
            r == if self.sem_has_id(id) {
                Some(self.sem_at(id))
            } else {
                None::<Arc<SemArray>>
            },
    {
        if id < self.arrays.len() {
            match &self.arrays[id] {
                Some(a) => Some(a.clone()),
                None => None,
            }
        } else {
            None
        }
    }

    /// The position of the undo entry keyed `(id, num)`, if one exists.
    fn undo_index(&self, id: SemId, num: SemNum) -> (r: Option<usize>)
        ensures
            match r {
                Some(i) => i < self.undo_seq().len() && self.undo_seq()[i as int].id == id
                    && self.undo_seq()[i as int].num == num && forall|j: int|
                    0 <= j < i ==> !(self.undo_seq()[j].id == id && self.undo_seq()[j].num == num),
                None => forall|j: int|
                    0 <= j < self.undo_seq().len() ==> !(#[trigger] self.undo_seq()[j].id == id
                        && self.undo_seq()[j].num == num),
            },
    {
        let mut i: usize = 0;
        while i < self.undos.len()
            invariant
                i <= self.undos@.len(),
                forall|j: int|
                    0 <= j < i ==> !(#[trigger] self.undos@[j].id == id && self.undos@[j].num
                        == num),
            decreases self.undos@.len() - i,
        {
            if self.undos[i].id == id && self.undos[i].num == num {
                return Some(i);
            }
            i = i + 1;
        }
        None
    }

    /// Accumulate `-op` into the undo slot for `(id, num)`, defaulting the
    /// prior value to 0 when unset.
    pub fn add_undo(&mut self, id: SemId, num: SemNum, op: SemOp)
        requires
            i16::MIN <= old(self).undo_of(id, num) - op <= i16::MAX,
        ensures
            final(self).undo_of(id, num) == old(self).undo_of(id, num) - op,
            forall|id2: SemId, num2: SemNum|
                !(id2 == id && num2 == num) ==> #[trigger] final(self).undo_of(id2, num2)
                    == old(self).undo_of(id2, num2),
            final(self).arrays_seq() == old(self).arrays_seq(),
            old(self).undo_keys_unique() ==> final(self).undo_keys_unique(),
    {
        match self.undo_index(id, num) {
            Some(i) => {
                let prior = self.undos[i].adjust;
                proof {
                    lemma_undo_lookup_first_match(self.undos@, i as int, id, num);
                }
                let ghost pre = self.undos@;
                let e = UndoEntry { id, num, adjust: prior - op };
                self.undos[i] = e;
                proof {
                    lemma_undo_lookup_update(pre, i as int, e, id, num);
                }
            },
            None => {
                proof {
                    lemma_undo_lookup_absent(self.undos@, id, num);
                }
                let e = UndoEntry { id, num, adjust: 0 - op };
                let ghost pre = self.undos@;
                self.undos.push(e);
                proof {
                    lemma_undo_lookup_push(pre, e, id, num);
                }
            },
        }
    }
    /// The accumulated undo value currently recorded for `(id, num)`; 0 when
    /// no operation was recorded for that slot.
    pub fn undo_value(&self, id: SemId, num: SemNum) -> (v: SemOp)
        ensures
            v == self.undo_of(id, num),
    {
        match self.undo_index(id, num) {
            Some(i) => {
                proof {
                    lemma_undo_lookup_first_match(self.undos@, i as int, id, num);
                }
                self.undos[i].adjust
            },
            None => {
                proof {
                    lemma_undo_lookup_absent(self.undo_seq(), id, num);
                }
                0
            },
        }
    }

    /// How many undo slots the table holds.
    pub fn undo_count(&self) -> (n: usize)
        ensures
            n == self.undo_seq().len(),
    {
        self.undos.len()
    }

    /// Fork the table: the child shares every array handle with the parent
    /// but starts with an empty undo table — a child owes nothing for
    /// operations performed by its parent.
    pub fn fork(&self) -> (r: SemProc)
        ensures
            forall|j: SemId| (#[trigger] r.sem_has_id(j)) <==> self.sem_has_id(j),
            forall|j: SemId| self.sem_has_id(j) ==> #[trigger] r.sem_at(j) == self.sem_at(j),
            r.undo_seq().len() == 0,
            r.undo_keys_unique(),
    {
        let mut arrays: Vec<Option<Arc<SemArray>>> = Vec::new();
        let mut i: usize = 0;
        while i < self.arrays.len()
            invariant
                i <= self.arrays@.len(),
                arrays@.len() == i,
                forall|j: int| 0 <= j < i ==> arrays@[j] == self.arrays@[j],
            decreases self.arrays@.len() - i,
        {
            match &self.arrays[i] {
                Some(a) => {
                    arrays.push(Some(a.clone()));
                },
                None => {
                    arrays.push(None);
                },
            }
            i = i + 1;
        }
        SemProc { arrays, undos: Vec::new() }
    }

    /// The compensating operations owed at process termination: one release
    /// of semaphore `num` of the array under `id` for every undo slot whose
    /// recorded value is 1; a slot recording 0 owes nothing.  A slot whose
    /// array is no longer resolvable yields an invalid-argument error, one
    /// recording any other magnitude an unsupported-operation error; the
    /// first faulty slot in table order decides which.
    pub fn undo_actions(&self) -> (r: Result<Vec<(SemId, SemNum, Arc<SemArray>)>, SysError>)
        ensures
            match r {
                Ok(list) => (forall|i: int|
                    0 <= i < self.undo_seq().len() ==> undo_entry_fault(
                        *self,
                        #[trigger] self.undo_seq()[i],
                    ) is None) && list@ == undo_release_list(*self, self.undo_seq()),
                Err(e) => exists|i: int|
                    0 <= i < self.undo_seq().len() && undo_entry_fault(
                        *self,
                        #[trigger] self.undo_seq()[i],
                    ) == Some(e) && forall|j: int|
                        0 <= j < i ==> undo_entry_fault(*self, #[trigger] self.undo_seq()[j]) is None,
            },
    {
        let mut out: Vec<(SemId, SemNum, Arc<SemArray>)> = Vec::new();
        let mut i: usize = 0;
        while i < self.undos.len()
            invariant
                i <= self.undos@.len(),
                forall|j: int|
                    0 <= j < i ==> undo_entry_fault(*self, #[trigger] self.undos@[j]) is None,
                out@ == undo_release_list(*self, self.undos@.take(i as int)),
            decreases self.undos@.len() - i,
        {
            let ent = self.undos[i];
            if ent.adjust == 1 {
                match self.get(ent.id) {
                    Some(a) => {
                        out.push((ent.id, ent.num, a));
                    },
                    None => {
                        return Err(SysError::Einval);
                    },
                }
            } else if ent.adjust == 0 {
                // nothing owed for this slot
            } else {
                return Err(SysError::Unsupported);
            }
            proof {
                assert(self.undos@.take(i as int + 1).drop_last() =~= self.undos@.take(i as int));
                assert(self.undos@.take(i as int + 1).last() == self.undos@[i as int]);
            }
            i = i + 1;
        }
        proof {
            assert(self.undos@.take(self.undos@.len() as int) =~= self.undos@);
        }
        Ok(out)
    }
}

/// The problem, if any, that the termination replay finds in one undo slot:
/// a recorded 1 whose array is gone is an invalid identifier, a recorded
/// magnitude other than 0 or 1 an unimplemented correction.
pub open spec fn undo_entry_fault(p: SemProc, e: UndoEntry) -> Option<SysError> {
    if e.adjust == 1 {
        if p.sem_has_id(e.id) {
            None
        } else {
            Some(SysError::Einval)
        }
    } else if e.adjust == 0 {
        None
    } else {
        Some(SysError::Unsupported)
    }
}

/// The releases owed for the undo entries `s` of table `p`, in table order:
/// one `(id, num, array)` for each entry recording exactly 1.
pub open spec fn undo_release_list(p: SemProc, s: Seq<UndoEntry>) -> Seq<(SemId, SemNum, Arc<SemArray>)>
    decreases s.len(),
{
    if s.len() == 0 {
        Seq::empty()
    } else {
        let rest = undo_release_list(p, s.drop_last());
        if s.last().adjust == 1 {
            rest.push((s.last().id, s.last().num, p.sem_at(s.last().id)))
        } else {
            rest
        }
    }
}

/// What `SemProc::add` guarantees: the returned identifier was the smallest
/// free one, it now holds `array`, and every other slot and the undo table
/// are untouched.
pub open spec fn sem_add_post(pre: SemProc, post: SemProc, array: Arc<SemArray>, id: SemId) -> bool {
    &&& !pre.sem_has_id(id)
    &&& forall|j: SemId| j < id ==> pre.sem_has_id(j)
    &&& post.sem_has_id(id)
    &&& post.sem_at(id) == array
    &&& forall|j: SemId| j != id ==> (#[trigger] post.sem_has_id(j) <==> pre.sem_has_id(j))
    &&& forall|j: SemId|
        j != id && pre.sem_has_id(j) ==> #[trigger] post.sem_at(j) == pre.sem_at(j)
    &&& post.undo_seq() == pre.undo_seq()
}

/// Law: on a table whose identifiers are exactly `{0, …, n-1}`, an insertion
/// is assigned identifier `n` and afterwards the identifiers are exactly
/// `{0, …, n}`, with the inserted handle under `n`.  Repeated insertion into
/// an empty table hence returns 0, 1, 2, … in order of first assignment, and
/// `get` on each returned identifier yields the handle inserted there.
pub proof fn lemma_sem_add_sequential(
    pre: SemProc,
    post: SemProc,
    array: Arc<SemArray>,
    id: SemId,
    n: SemId,
)
    requires
        sem_add_post(pre, post, array, id),
        forall|j: SemId| (#[trigger] pre.sem_has_id(j)) <==> j < n,
    ensures
        id == n,
        forall|j: SemId| (#[trigger] post.sem_has_id(j)) <==> j < n + 1,
        post.sem_at(n) == array,
{
    assert(!pre.sem_has_id(id));
    if id < n {
        assert(pre.sem_has_id(id));
    }
    if id > n {
        assert(pre.sem_has_id(n));
    }
}

/// Law: for every sequence of insertions into an empty table — `states`
/// walks through the intermediate tables, each step satisfying `add`'s
/// contract — the returned identifiers are 0, 1, …, n-1 in order of first
/// assignment, the final table holds exactly those identifiers, and each
/// holds the handle inserted with it (so `get` yields it).
pub proof fn lemma_sem_adds_from_empty(
    states: Seq<SemProc>,
    handles: Seq<Arc<SemArray>>,
    ids: Seq<SemId>,
)
    requires
        states.len() == handles.len() + 1,
        ids.len() == handles.len(),
        states[0].arrays_seq().len() == 0,
        forall|k: int|
            0 <= k < handles.len() ==> #[trigger] sem_add_post(
                states[k],
                states[k + 1],
                handles[k],
                ids[k],
            ),
    ensures
        forall|k: int| 0 <= k < ids.len() ==> #[trigger] ids[k] == k,
        forall|j: SemId|
            j < ids.len() ==> (#[trigger] states.last().sem_has_id(j)) && states.last().sem_at(j)
                == handles[j as int],
        forall|j: SemId| #[trigger] states.last().sem_has_id(j) ==> j < ids.len(),
    decreases handles.len(),
{
    let n = handles.len() as int;
    if n == 0 {
        assert(states.last() == states[0]);
        assert forall|j: SemId| #[trigger] states.last().sem_has_id(j) implies j < 0 by {
            assert(!states[0].sem_has_id(j));
        }
    } else {
        let sd = states.drop_last();
        let hd = handles.drop_last();
        let idd = ids.drop_last();
        assert forall|k: int|
            0 <= k < hd.len() implies #[trigger] sem_add_post(sd[k], sd[k + 1], hd[k], idd[k]) by {
            assert(sd[k] == states[k]);
            assert(sd[k + 1] == states[k + 1]);
            assert(hd[k] == handles[k]);
            assert(idd[k] == ids[k]);
        }
        assert(sd[0] == states[0]);
        lemma_sem_adds_from_empty(sd, hd, idd);
        let pre = states[n - 1];
        let post = states[n];
        assert(sd.last() == pre);
        assert forall|j: SemId|
            j < idd.len() implies (#[trigger] pre.sem_has_id(j)) && pre.sem_at(j) == handles[
            j as int] by {
            assert(sd.last().sem_has_id(j));
            assert(sd.last().sem_at(j) == hd[j as int]);
            assert(hd[j as int] == handles[j as int]);
        }
        assert(sem_add_post(pre, post, handles[n - 1], ids[n - 1]));
        assert forall|j: SemId| (#[trigger] pre.sem_has_id(j)) <==> j < (n - 1) by {
            if (j as int) < n - 1 {
                assert(sd.last().sem_has_id(j));
                assert(sd.last().sem_at(j) == hd[j as int]);
            }
            if pre.sem_has_id(j) {
                assert(sd.last().sem_has_id(j));
                assert(j < idd.len());
            }
        }
        lemma_sem_add_sequential(pre, post, handles[n - 1], ids[n - 1], (n - 1) as SemId);
        assert(states.last() == post);
        assert forall|j: SemId|
            j < ids.len() implies (#[trigger] states.last().sem_has_id(j)) && states.last().sem_at(
            j,
        ) == handles[j as int] by {
            if (j as int) < n - 1 {
                assert(pre.sem_has_id(j));
                assert(pre.sem_at(j) == handles[j as int]);
                assert(ids[n - 1] == n - 1);
                assert(j != ids[n - 1]);
                assert(post.sem_has_id(j) <==> pre.sem_has_id(j));
                assert(post.sem_at(j) == pre.sem_at(j));
            } else {
                assert(post.sem_at((n - 1) as SemId) == handles[n - 1]);
            }
        }
        assert forall|k: int| 0 <= k < ids.len() implies #[trigger] ids[k] == k by {
            if k < n - 1 {
                assert(idd[k] == ids[k]);
            }
        }
        assert forall|j: SemId| #[trigger] states.last().sem_has_id(j) implies j < ids.len() by {
            if j != ids[n - 1] {
                assert(pre.sem_has_id(j));
            }
        }
    }
}

/// Law: the undo slot records the negated sum of the issued operations.
/// For a process that issues undo-flagged ops `op1, op2, …` on the same
/// `(id, num)` — `states` walks through the tables, each step recording one
/// op as `add_undo`'s contract states — the slot ends holding exactly
/// `-(op1 + op2 + …)`.
pub proof fn lemma_undo_records_negated_sum(
    states: Seq<SemProc>,
    ops: Seq<SemOp>,
    id: SemId,
    num: SemNum,
)
    requires
        states.len() == ops.len() + 1,
        states[0].undo_of(id, num) == 0,
        forall|k: int|
            0 <= k < ops.len() ==> #[trigger] states[k + 1].undo_of(id, num) == states[k].undo_of(
                id,
                num,
            ) - ops[k],
    ensures
        states.last().undo_of(id, num) == -sem_op_sum(ops.map_values(|o: SemOp| o as int)),
    decreases ops.len(),
{
    let m = ops.map_values(|o: SemOp| o as int);
    if ops.len() == 0 {
        assert(m.len() == 0);
        assert(states.last() == states[0]);
    } else {
        let n = ops.len() as int;
        let sd = states.drop_last();
        let od = ops.drop_last();
        assert forall|k: int|
            0 <= k < od.len() implies #[trigger] sd[k + 1].undo_of(id, num) == sd[k].undo_of(
            id,
            num,
        ) - od[k] by {
            assert(sd[k] == states[k]);
            assert(sd[k + 1] == states[k + 1]);
            assert(od[k] == ops[k]);
        }
        assert(sd[0] == states[0]);
        lemma_undo_records_negated_sum(sd, od, id, num);
        assert(od.map_values(|o: SemOp| o as int) =~= m.drop_last());
        assert(sd.last() == states[n - 1]);
        assert(states[n].undo_of(id, num) == states[n - 1].undo_of(id, num) - ops[n - 1]);
        assert(m.last() == ops[n - 1] as int);
        assert(states.last() == states[n]);
        assert(sem_op_sum(m) == sem_op_sum(m.drop_last()) + m.last());
    }
}

/// The sum of a sequence of semaphore operations.
pub open spec fn sem_op_sum(ops: Seq<int>) -> int
    decreases ops.len(),
{
    if ops.len() == 0 {
        0
    } else {
        sem_op_sum(ops.drop_last()) + ops.last()
    }
}

/// Law: the termination replay issues a release for `(id, num)` if and only
/// if the value recorded for `(id, num)` is exactly 1 (given that each key
/// holds at most one slot, as every table built by `add_undo` does).
pub proof fn lemma_release_iff_undo_one(p: SemProc, id: SemId, num: SemNum)
    requires
        p.undo_keys_unique(),
    ensures
        (exists|i: int|
            0 <= i < undo_release_list(p, p.undo_seq()).len() && (#[trigger] undo_release_list(
                p,
                p.undo_seq(),
            )[i]).0 == id && undo_release_list(p, p.undo_seq())[i].1 == num) <==> p.undo_of(id, num)
            == 1,
{
    lemma_release_list_membership(p, p.undo_seq(), id, num);
    lemma_lookup_one_iff_match(p.undo_seq(), id, num);
}

/// A release for `(id, num)` stands in the replay list iff some entry keyed
/// `(id, num)` records exactly 1.
proof fn lemma_release_list_membership(p: SemProc, s: Seq<UndoEntry>, id: SemId, num: SemNum)
    ensures
        (exists|i: int|
            0 <= i < undo_release_list(p, s).len() && (#[trigger] undo_release_list(p, s)[i]).0
                == id && undo_release_list(p, s)[i].1 == num) <==> (exists|i: int|
            0 <= i < s.len() && (#[trigger] s[i]).id == id && s[i].num == num && s[i].adjust == 1),
    decreases s.len(),
{
    if s.len() > 0 {
        lemma_release_list_membership(p, s.drop_last(), id, num);
        let t = undo_release_list(p, s);
        let rest = undo_release_list(p, s.drop_last());
        if exists|i: int|
            0 <= i < s.len() && (#[trigger] s[i]).id == id && s[i].num == num && s[i].adjust == 1 {
            let i = choose|i: int|
                0 <= i < s.len() && (#[trigger] s[i]).id == id && s[i].num == num && s[i].adjust
                    == 1;
            if i < s.len() - 1 {
                assert(s.drop_last()[i] == s[i]);
                let k = choose|k: int|
                    0 <= k < rest.len() && (#[trigger] rest[k]).0 == id && rest[k].1 == num;
                assert(t[k] == rest[k]);
            } else {
                assert(t.last().0 == id && t.last().1 == num);
            }
        }
        if exists|i: int| 0 <= i < t.len() && (#[trigger] t[i]).0 == id && t[i].1 == num {
            let k = choose|k: int| 0 <= k < t.len() && (#[trigger] t[k]).0 == id && t[k].1 == num;
            if k < rest.len() {
                assert(rest[k] == t[k]);
                let i = choose|i: int|
                    0 <= i < s.drop_last().len() && (#[trigger] s.drop_last()[i]).id == id
                        && s.drop_last()[i].num == num && s.drop_last()[i].adjust == 1;
                assert(s[i] == s.drop_last()[i]);
            } else {
                assert(s.last().adjust == 1 && s.last().id == id && s.last().num == num);
                assert(s[s.len() - 1] == s.last());
            }
        }
    }
}

/// Under unique keys, the recorded value is 1 iff some entry keyed
/// `(id, num)` records 1.
proof fn lemma_lookup_one_iff_match(s: Seq<UndoEntry>, id: SemId, num: SemNum)
    requires
        forall|i: int, j: int|
            0 <= i < j < s.len() ==> !(#[trigger] s[i].id == #[trigger] s[j].id && s[i].num
                == s[j].num),
    ensures
        (undo_lookup(s, id, num) == 1) <==> (exists|i: int|
            0 <= i < s.len() && (#[trigger] s[i]).id == id && s[i].num == num && s[i].adjust == 1),
    decreases s.len(),
{
    if s.len() > 0 {
        if s[0].id == id && s[0].num == num {
            assert(undo_lookup(s, id, num) == s[0].adjust);
            if s[0].adjust == 1 {
                assert(0 <= 0 < s.len() && s[0].id == id && s[0].num == num && s[0].adjust == 1);
            } else {
                assert forall|i: int|
                    0 <= i < s.len() && (#[trigger] s[i]).id == id && s[i].num == num implies !(
                s[i].adjust == 1) by {
                    if i > 0 {
                        assert(!(s[0].id == s[i].id && s[0].num == s[i].num));
                    }
                }
            }
        } else {
            assert forall|i: int, j: int|
                0 <= i < j < s.drop_first().len() implies !(#[trigger] s.drop_first()[i].id
                == #[trigger] s.drop_first()[j].id && s.drop_first()[i].num
                == s.drop_first()[j].num) by {
                assert(s.drop_first()[i] == s[i + 1]);
                assert(s.drop_first()[j] == s[j + 1]);
            }
            lemma_lookup_one_iff_match(s.drop_first(), id, num);
            assert(undo_lookup(s, id, num) == undo_lookup(s.drop_first(), id, num));
            if exists|i: int|
                0 <= i < s.len() && (#[trigger] s[i]).id == id && s[i].num == num && s[i].adjust
                    == 1 {
                let i = choose|i: int|
                    0 <= i < s.len() && (#[trigger] s[i]).id == id && s[i].num == num && s[i].adjust
                        == 1;
                assert(i > 0);
                assert(s.drop_first()[i - 1] == s[i]);
            }
            if exists|i: int|
                0 <= i < s.drop_first().len() && (#[trigger] s.drop_first()[i]).id == id
                    && s.drop_first()[i].num == num && s.drop_first()[i].adjust == 1 {
                let i = choose|i: int|
                    0 <= i < s.drop_first().len() && (#[trigger] s.drop_first()[i]).id == id
                        && s.drop_first()[i].num == num && s.drop_first()[i].adjust == 1;
                assert(s[i + 1] == s.drop_first()[i]);
            }
        }
    }
}

/// A table holding no entry keyed `(id, num)` records the value 0 for it.
proof fn lemma_undo_lookup_absent(s: Seq<UndoEntry>, id: SemId, num: SemNum)
    requires
        forall|j: int| 0 <= j < s.len() ==> !(#[trigger] s[j].id == id && s[j].num == num),
    ensures
        undo_lookup(s, id, num) == 0,
    decreases s.len(),
{
    if s.len() > 0 {
        assert(!(s[0].id == id && s[0].num == num));
        assert forall|j: int|
            0 <= j < s.drop_first().len() implies !(#[trigger] s.drop_first()[j].id == id
            && s.drop_first()[j].num == num) by {
            assert(s.drop_first()[j] == s[j + 1]);
        }
        lemma_undo_lookup_absent(s.drop_first(), id, num);
    }
}

/// When `i` is the first entry keyed `(id, num)`, the recorded value is that
/// entry's `adjust`.
proof fn lemma_undo_lookup_first_match(s: Seq<UndoEntry>, i: int, id: SemId, num: SemNum)
    requires
        0 <= i < s.len(),
        s[i].id == id && s[i].num == num,
        forall|j: int| 0 <= j < i ==> !(#[trigger] s[j].id == id && s[j].num == num),
    ensures
        undo_lookup(s, id, num) == s[i].adjust,
    decreases s.len(),
{
    if i > 0 {
        assert(!(s[0].id == id && s[0].num == num));
        assert forall|j: int|
            0 <= j < i - 1 implies !(#[trigger] s.drop_first()[j].id == id && s.drop_first()[j].num
            == num) by {
            assert(s.drop_first()[j] == s[j + 1]);
        }
        assert(s.drop_first()[i - 1] == s[i]);
        lemma_undo_lookup_first_match(s.drop_first(), i - 1, id, num);
    }
}

/// Replacing the first entry keyed `(id, num)` changes the recorded value of
/// that key to the new entry's `adjust` and of no other key.
proof fn lemma_undo_lookup_update(s: Seq<UndoEntry>, i: int, e: UndoEntry, id: SemId, num: SemNum)
    requires
        0 <= i < s.len(),
        s[i].id == id && s[i].num == num,
        forall|j: int| 0 <= j < i ==> !(#[trigger] s[j].id == id && s[j].num == num),
        e.id == id && e.num == num,
    ensures
        undo_lookup(s.update(i, e), id, num) == e.adjust,
        forall|id2: SemId, num2: SemNum|
            !(id2 == id && num2 == num) ==> undo_lookup(s.update(i, e), id2, num2) == undo_lookup(
                s,
                id2,
                num2,
            ),
    decreases s.len(),
{
    let t = s.update(i, e);
    if i == 0 {
        assert(t.drop_first() =~= s.drop_first());
        assert(t[0] == e);
        assert(undo_lookup(t, id, num) == e.adjust);
        assert forall|id2: SemId, num2: SemNum| !(id2 == id && num2 == num) implies undo_lookup(
            t,
            id2,
            num2,
        ) == undo_lookup(s, id2, num2) by {
            assert(!(t[0].id == id2 && t[0].num == num2));
            assert(!(s[0].id == id2 && s[0].num == num2));
            assert(undo_lookup(t, id2, num2) == undo_lookup(t.drop_first(), id2, num2));
            assert(undo_lookup(s, id2, num2) == undo_lookup(s.drop_first(), id2, num2));
        }
    } else {
        assert(t[0] == s[0]);
        assert(t.drop_first() =~= s.drop_first().update(i - 1, e));
        assert(!(s[0].id == id && s[0].num == num));
        assert forall|j: int|
            0 <= j < i - 1 implies !(#[trigger] s.drop_first()[j].id == id && s.drop_first()[j].num
            == num) by {
            assert(s.drop_first()[j] == s[j + 1]);
        }
        assert(s.drop_first()[i - 1] == s[i]);
        lemma_undo_lookup_update(s.drop_first(), i - 1, e, id, num);
        assert(undo_lookup(t, id, num) == undo_lookup(t.drop_first(), id, num));
        assert forall|id2: SemId, num2: SemNum| !(id2 == id && num2 == num) implies undo_lookup(
            t,
            id2,
            num2,
        ) == undo_lookup(s, id2, num2) by {
            if s[0].id == id2 && s[0].num == num2 {
                assert(undo_lookup(t, id2, num2) == t[0].adjust);
                assert(undo_lookup(s, id2, num2) == s[0].adjust);
            } else {
                assert(undo_lookup(t, id2, num2) == undo_lookup(t.drop_first(), id2, num2));
                assert(undo_lookup(s, id2, num2) == undo_lookup(s.drop_first(), id2, num2));
            }
        }
    }
}

/// Appending an entry keyed `(id, num)` to a table without that key sets the
/// recorded value of that key to the entry's `adjust` and changes no other.
proof fn lemma_undo_lookup_push(s: Seq<UndoEntry>, e: UndoEntry, id: SemId, num: SemNum)
    requires
        forall|j: int| 0 <= j < s.len() ==> !(#[trigger] s[j].id == id && s[j].num == num),
        e.id == id && e.num == num,
    ensures
        undo_lookup(s.push(e), id, num) == e.adjust,
        forall|id2: SemId, num2: SemNum|
            !(id2 == id && num2 == num) ==> undo_lookup(s.push(e), id2, num2) == undo_lookup(
                s,
                id2,
                num2,
            ),
    decreases s.len(),
{
    let t = s.push(e);
    if s.len() == 0 {
        assert(t[0] == e);
        assert(undo_lookup(t, id, num) == e.adjust);
        assert forall|id2: SemId, num2: SemNum| !(id2 == id && num2 == num) implies undo_lookup(
            t,
            id2,
            num2,
        ) == undo_lookup(s, id2, num2) by {
            assert(!(t[0].id == id2 && t[0].num == num2));
            assert(t.drop_first() =~= Seq::<UndoEntry>::empty());
            assert(undo_lookup(t, id2, num2) == undo_lookup(t.drop_first(), id2, num2));
            assert(undo_lookup(t.drop_first(), id2, num2) == 0);
            assert(undo_lookup(s, id2, num2) == 0);
        }
    } else {
        assert(t[0] == s[0]);
        assert(t.drop_first() =~= s.drop_first().push(e));
        assert(!(s[0].id == id && s[0].num == num));
        assert forall|j: int|
            0 <= j < s.drop_first().len() implies !(#[trigger] s.drop_first()[j].id == id
            && s.drop_first()[j].num == num) by {
            assert(s.drop_first()[j] == s[j + 1]);
        }
        lemma_undo_lookup_push(s.drop_first(), e, id, num);
        assert(undo_lookup(t, id, num) == undo_lookup(t.drop_first(), id, num));
        assert forall|id2: SemId, num2: SemNum| !(id2 == id && num2 == num) implies undo_lookup(
            t,
            id2,
            num2,
        ) == undo_lookup(s, id2, num2) by {
            if s[0].id == id2 && s[0].num == num2 {
                assert(undo_lookup(t, id2, num2) == t[0].adjust);
                assert(undo_lookup(s, id2, num2) == s[0].adjust);
            } else {
                assert(undo_lookup(t, id2, num2) == undo_lookup(t.drop_first(), id2, num2));
                assert(undo_lookup(s, id2, num2) == undo_lookup(s.drop_first(), id2, num2));
            }
        }
    }
}

} // verus!
