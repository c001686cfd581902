use vstd::prelude::*;
use crate::errors::BpfdError;

verus! {

/// One program's place in a hook's dispatcher.
#[derive(Debug, Clone, Copy, PartialEq, Eq, Structural)]
pub struct HookSlot {
    pub id: u128,
    /// Lower values run first.
    pub priority: i32,
    /// When the program joined the hook; breaks ties between equal priorities.
    pub arrival: u64,
    /// The proceed-on mask the dispatcher holds for this slot.
    pub proceed_on: u32,
}

/// A kernel-side step of a dispatcher swap, carried out in order by the caller.
#[derive(Debug, Clone, Copy, PartialEq, Eq, Structural)]
pub enum KernelOp {
    /// Build the dispatcher for `slots` programs, load it and pin it under its revision.
    LoadDispatcher { revision: u64, slots: usize },
    /// Load a user program and pin it.
    LoadProgram { id: u128 },
    /// Point a slot of a loaded dispatcher at a user program.
    SetSlot { revision: u64, slot: usize, id: u128, proceed_on: u32 },
    /// Attach a dispatcher to the hook: the step that commits a swap.
    Attach { revision: u64 },
    /// Detach an attached dispatcher and unpin it.
    Detach { revision: u64 },
    /// Unpin a dispatcher that was never attached.
    UnpinDispatcher { revision: u64 },
    /// Unpin a user program and release it.
    UnpinProgram { id: u128 },
}

/// Whether `a` runs before `b`: by priority, then by arrival.
pub open spec fn precedes(a: HookSlot, b: HookSlot) -> bool {
    a.priority < b.priority || (a.priority == b.priority && a.arrival < b.arrival)
}

/// Slots in dispatch order.
pub open spec fn sorted_slots(s: Seq<HookSlot>) -> bool {
    forall|i: int, j: int| 0 <= i < j < s.len() ==> precedes(#[trigger] s[i], #[trigger] s[j])
}

/// Whether a slot of `s` holds `id`.
pub open spec fn holds_id(s: Seq<HookSlot>, id: u128) -> bool {
    exists|i: int| 0 <= i < s.len() && (#[trigger] s[i]).id == id
}

/// The slot operations that point each slot of dispatcher `revision` at `s`'s programs.
pub open spec fn slot_ops(revision: u64, s: Seq<HookSlot>) -> Seq<KernelOp> {
    Seq::new(
        s.len(),
        |i: int| KernelOp::SetSlot { revision, slot: i as usize, id: s[i].id, proceed_on: s[i].proceed_on },
    )
}

/// The operation that loads `fresh`, if any.
pub open spec fn load_op(fresh: Option<u128>) -> Seq<KernelOp> {
    match fresh {
        Some(id) => seq![KernelOp::LoadProgram { id }],
        None => Seq::empty(),
    }
}

/// The operation that unpins `removed`, if any.
pub open spec fn unpin_op(removed: Option<u128>) -> Seq<KernelOp> {
    match removed {
        Some(id) => seq![KernelOp::UnpinProgram { id }],
        None => Seq::empty(),
    }
}

/// The operation that retires dispatcher `revision`, if the hook had one.
pub open spec fn retire_op(old: Seq<HookSlot>, revision: u64) -> Seq<KernelOp> {
    if old.len() > 0 {
        seq![KernelOp::Detach { revision }]
    } else {
        Seq::empty()
    }
}

/// The swap from dispatcher `old_rev` over `old` to dispatcher `new_rev` over
/// `new`, loading the program `fresh` and releasing the program `removed`.
/// With an empty new list the dispatcher is only taken away.
pub open spec fn swap_ops(
    old: Seq<HookSlot>,
    old_rev: u64,
    new: Seq<HookSlot>,
    new_rev: u64,
    fresh: Option<u128>,
    removed: Option<u128>,
) -> Seq<KernelOp> {
    if new.len() > 0 {
        seq![KernelOp::LoadDispatcher { revision: new_rev, slots: new.len() as usize }]
            + load_op(fresh)
            + slot_ops(new_rev, new)
            + seq![KernelOp::Attach { revision: new_rev }]
            + retire_op(old, old_rev)
            + unpin_op(removed)
    } else {
        retire_op(old, old_rev) + unpin_op(removed)
    }
}

/// The index of the operation that commits the swap.
pub open spec fn commit_index(new: Seq<HookSlot>, fresh: Option<u128>) -> int {
    if new.len() > 0 { 1 + load_op(fresh).len() as int + new.len() as int } else { 0 }
}

/// A swap worked out in advance: the list it leads to, the new revision, and
/// the kernel operations that carry it out.
#[derive(Debug, Clone)]
pub struct SwapPlan {
    pub slots: Vec<HookSlot>,
    pub revision: u64,
    pub next_arrival: u64,
    pub ops: Vec<KernelOp>,
    /// Index in `ops` of the operation that commits the swap; a failure at or
    /// before it leaves the hook as it was once rolled back.
    pub commit: usize,
}

/// The dispatcher state of one hook.
#[derive(Debug, Clone)]
pub struct HookState {
    /// The programs in dispatch order; a program's position is its index.
    pub slots: Vec<HookSlot>,
    /// The revision of the installed dispatcher; it grows with every swap.
    pub revision: u64,
    /// The arrival stamp the next program gets.
    pub next_arrival: u64,
    /// How many programs the hook's dispatcher can hold.
    pub capacity: usize,
}

/// The largest dispatcher any hook can have.
pub const MAX_CAPACITY: usize = 1024;

/// What undoes an operation that ran before the commit point.
pub open spec fn undo_of(op: KernelOp) -> Seq<KernelOp> {
    match op {
        KernelOp::LoadDispatcher { revision, .. } => seq![KernelOp::UnpinDispatcher { revision }],
        KernelOp::LoadProgram { id } => seq![KernelOp::UnpinProgram { id }],
        _ => Seq::empty(),
    }
}

/// The operations that undo `s`, last first.
pub open spec fn undo_ops(s: Seq<KernelOp>) -> Seq<KernelOp>
    decreases s.len(),
{
    if s.len() == 0 {
        Seq::empty()
    } else {
        undo_of(s.last()) + undo_ops(s.drop_last())
    }
}

/// Undoing `x` followed by `t` undoes `t` first.
proof fn lemma_undo_front(x: KernelOp, t: Seq<KernelOp>)
    ensures
        undo_ops(seq![x] + t) == undo_ops(t) + undo_of(x),
    decreases t.len(),
{
    if t.len() == 0 {
        assert(seq![x] + t =~= seq![x]);
        assert(seq![x].drop_last() =~= Seq::<KernelOp>::empty());
        assert(undo_ops(seq![x]) =~= undo_of(x) + undo_ops(Seq::<KernelOp>::empty()));
        assert(undo_ops(seq![x]) =~= undo_ops(t) + undo_of(x));
    } else {
        lemma_undo_front(x, t.drop_last());
        assert((seq![x] + t).drop_last() =~= seq![x] + t.drop_last());
        assert(undo_ops(seq![x] + t) =~= undo_of(t.last()) + undo_ops(seq![x] + t.drop_last()));
        assert(undo_ops(seq![x] + t) =~= undo_ops(t) + undo_of(x));
    }
}

impl SwapPlan {
    /// The operations that roll back a swap whose operation `failed` did not
    /// take effect: everything loaded before it is unpinned again, last first.
    pub fn rollback(&self, failed: usize) -> (r: Vec<KernelOp>)
        requires
            failed <= self.commit,
            self.commit < self.ops@.len(),
        ensures
            r@ == undo_ops(self.ops@.take(failed as int)),
    {
        let mut out: Vec<KernelOp> = Vec::new();
        let mut i: usize = failed;
        while i > 0
            invariant
                i <= failed < self.ops@.len(),
                out@ == undo_ops(self.ops@.subrange(i as int, failed as int)),
            decreases i,
        {
            let op = self.ops[i - 1];
            proof {
                let s = self.ops@.subrange(i - 1, failed as int);
                assert(s =~= seq![op] + self.ops@.subrange(i as int, failed as int));
                lemma_undo_front(op, self.ops@.subrange(i as int, failed as int));
            }
            match op {
                KernelOp::LoadDispatcher { revision, .. } => {
                    out.push(KernelOp::UnpinDispatcher { revision });
                },
                KernelOp::LoadProgram { id } => {
                    out.push(KernelOp::UnpinProgram { id });
                },
                _ => {},
            }
            proof {
                assert(out@ =~= undo_ops(self.ops@.subrange(i as int, failed as int)) + undo_of(op));
            }
            i = i - 1;
        }
        proof {
            assert(self.ops@.subrange(0, failed as int) =~= self.ops@.take(failed as int));
        }
        out
    }
}

impl HookState {
    /// Slots sorted, arrivals issued before `next_arrival`, identifiers distinct.
    pub open spec fn wf(&self) -> bool {
        &&& self.slots@.len() <= self.capacity <= MAX_CAPACITY
        &&& sorted_slots(self.slots@)
        &&& forall|i: int| 0 <= i < self.slots@.len() ==> (#[trigger] self.slots@[i]).arrival < self.next_arrival
        &&& forall|i: int, j: int|
            0 <= i < j < self.slots@.len() ==> (#[trigger] self.slots@[i]).id != (#[trigger] self.slots@[j]).id
    }

    /// A hook with no programs and no dispatcher.
    pub fn new(capacity: usize) -> (r: HookState)
        requires
            capacity <= MAX_CAPACITY,
        ensures
            r.wf(),
            r.slots@.len() == 0,
            r.revision == 0,
            r.next_arrival == 0,
            r.capacity == capacity,
    {
        HookState { slots: Vec::new(), revision: 0, next_arrival: 0, capacity }
    }

    /// The position of `id`, if it is on this hook.
    pub fn position(&self, id: u128) -> (r: Option<usize>)
        ensures
            match r {
                Some(i) => i < self.slots@.len() && self.slots@[i as int].id == id
                    && forall|j: int| 0 <= j < i ==> (#[trigger] self.slots@[j]).id != id,
                None => !holds_id(self.slots@, id),
            },
    {
        let mut i: usize = 0;
        while i < self.slots.len()
            invariant
                i <= self.slots@.len(),
                forall|j: int| 0 <= j < i ==> (#[trigger] self.slots@[j]).id != id,
            decreases self.slots@.len() - i,
        {
            if self.slots[i].id == id {
                return Some(i);
            }
            i = i + 1;
        }
        None
    }

    /// The identifiers in dispatch order.
    pub fn list(&self) -> (r: Vec<u128>)
        ensures
            r@ == self.slots@.map_values(|s: HookSlot| s.id),
    {
        let mut out: Vec<u128> = Vec::new();
        let mut i: usize = 0;
        while i < self.slots.len()
            invariant
                i <= self.slots@.len(),
                out@ == self.slots@.take(i as int).map_values(|s: HookSlot| s.id),
            decreases self.slots@.len() - i,
        {
            out.push(self.slots[i].id);
            i = i + 1;
            proof {
                assert(self.slots@.take(i as int).map_values(|s: HookSlot| s.id)
                    =~= out@);
            }
        }
        proof {
            assert(self.slots@.take(i as int) =~= self.slots@);
        }
        out
    }
    /// The number of programs with a priority at or below `priority`: where a
    /// newcomer with that priority goes.
    pub fn insert_index(&self, priority: i32) -> (r: usize)
        requires
            self.wf(),
        ensures
            r <= self.slots@.len(),
            forall|i: int| 0 <= i < r ==> (#[trigger] self.slots@[i]).priority <= priority,
            forall|i: int| r <= i < self.slots@.len() ==> (#[trigger] self.slots@[i]).priority > priority,
    {
        let mut i: usize = 0;
        while i < self.slots.len() && self.slots[i].priority <= priority
            invariant
                i <= self.slots@.len(),
                forall|j: int| 0 <= j < i ==> (#[trigger] self.slots@[j]).priority <= priority,
            decreases self.slots@.len() - i,
        {
            i = i + 1;
        }
        proof {
            if i < self.slots@.len() {
                assert forall|j: int| i <= j < self.slots@.len() implies (#[trigger] self.slots@[j]).priority > priority by {
                    if j > i {
                        assert(precedes(self.slots@[i as int], self.slots@[j]));
                    }
                }
            }
        }
        i
    }

    /// The kernel operations of a swap from this hook's list to `new`.
    fn build_ops(&self, new: &Vec<HookSlot>, new_rev: u64, fresh: Option<u128>, removed: Option<u128>) -> (r: Vec<KernelOp>)
        ensures
            r@ == swap_ops(self.slots@, self.revision, new@, new_rev, fresh, removed),
    {
        let mut ops: Vec<KernelOp> = Vec::new();
        if new.len() > 0 {
            ops.push(KernelOp::LoadDispatcher { revision: new_rev, slots: new.len() });
            match fresh {
                Some(id) => ops.push(KernelOp::LoadProgram { id }),
                None => {},
            }
            let ghost head = ops@;
            proof {
                assert(head =~= seq![KernelOp::LoadDispatcher { revision: new_rev, slots: new@.len() as usize }]
                    + load_op(fresh));
            }
            let mut i: usize = 0;
            while i < new.len()
                invariant
                    i <= new@.len(),
                    ops@ == head + slot_ops(new_rev, new@.take(i as int)),
                decreases new@.len() - i,
            {
                ops.push(KernelOp::SetSlot { revision: new_rev, slot: i, id: new[i].id, proceed_on: new[i].proceed_on });
                i = i + 1;
                proof {
                    assert(ops@ =~= head + slot_ops(new_rev, new@.take(i as int)));
                }
            }
            proof {
                assert(new@.take(i as int) =~= new@);
            }
            ops.push(KernelOp::Attach { revision: new_rev });
        }
        let ghost mid = ops@;
        if self.slots.len() > 0 {
            ops.push(KernelOp::Detach { revision: self.revision });
        }
        let ghost retired = ops@;
        match removed {
            Some(id) => ops.push(KernelOp::UnpinProgram { id }),
            None => {},
        }
        proof {
            assert(retired =~= mid + retire_op(self.slots@, self.revision));
            assert(ops@ =~= mid + retire_op(self.slots@, self.revision) + unpin_op(removed));
        }
        ops
    }

    /// A copy of the slot list.
    fn copy_slots(&self) -> (r: Vec<HookSlot>)
        ensures
            r@ == self.slots@,
    {
        let mut out: Vec<HookSlot> = Vec::new();
        let mut i: usize = 0;
        while i < self.slots.len()
            invariant
                i <= self.slots@.len(),
                out@ == self.slots@.take(i as int),
            decreases self.slots@.len() - i,
        {
            out.push(self.slots[i]);
            i = i + 1;
            proof {
                assert(out@ =~= self.slots@.take(i as int));
            }
        }
        proof {
            assert(self.slots@.take(i as int) =~= self.slots@);
        }
        out
    }

    /// Whether `p` is a swap from this hook: the next revision, a well-formed
    /// list that fits the dispatcher, and arrival stamps that only grow.
    pub open spec fn advances_to(&self, p: SwapPlan) -> bool {
        &&& self.revision < u64::MAX
        &&& p.revision == self.revision + 1
        &&& p.next_arrival >= self.next_arrival
        &&& (HookState { slots: p.slots, revision: p.revision, next_arrival: p.next_arrival, capacity: self.capacity }).wf()
    }

    /// Works out the swap that adds program `id` with `priority` and the
    /// proceed-on mask `proceed_on`. It goes after every program of lower or
    /// equal priority and before every program of higher priority.
    pub fn plan_add(&self, id: u128, priority: i32, proceed_on: u32) -> (r: Result<SwapPlan, BpfdError>)
        requires
            self.wf(),
        ensures
            holds_id(self.slots@, id) ==> r == Err::<SwapPlan, BpfdError>(BpfdError::AlreadyExists(id)),
            !holds_id(self.slots@, id) && self.slots@.len() >= self.capacity
                ==> r == Err::<SwapPlan, BpfdError>(BpfdError::TooManyPrograms(id)),
            !holds_id(self.slots@, id) && self.slots@.len() < self.capacity
                && (self.revision == u64::MAX || self.next_arrival == u64::MAX) ==> r is Err,
            !holds_id(self.slots@, id) && self.slots@.len() < self.capacity
                && self.revision < u64::MAX && self.next_arrival < u64::MAX ==> (r matches Ok(p) && {
                    let slot = HookSlot { id, priority, arrival: self.next_arrival, proceed_on };
                    &&& self.advances_to(p)
                    &&& p.next_arrival == self.next_arrival + 1
                    &&& exists|k: int| 0 <= k <= self.slots@.len() && p.slots@ == self.slots@.insert(k, slot)
                    &&& p.ops@ == swap_ops(self.slots@, self.revision, p.slots@, p.revision, Some(id), None)
                    &&& p.commit == commit_index(p.slots@, Some(id))
                }),
    {
        match self.position(id) {
            Some(_) => {
                return Err(BpfdError::AlreadyExists(id));
            },
            None => {},
        }
        if self.slots.len() >= self.capacity {
            return Err(BpfdError::TooManyPrograms(id));
        }
        if self.revision == u64::MAX || self.next_arrival == u64::MAX {
            return Err(BpfdError::Error(String::from_str("hook counters exhausted")));
        }
        let k = self.insert_index(priority);
        let slot = HookSlot { id, priority, arrival: self.next_arrival, proceed_on };
        let mut slots = self.copy_slots();
        slots.insert(k, slot);
        let revision = self.revision + 1;
        let next_arrival = self.next_arrival + 1;
        proof {
            let s = slots@;
            let o = self.slots@;
            assert(s =~= o.insert(k as int, slot));
            assert forall|i: int, j: int| 0 <= i < j < s.len() implies precedes(#[trigger] s[i], #[trigger] s[j]) by {
                if j < k {
                    assert(precedes(o[i], o[j]));
                } else if j == k {
                    assert(o[i].priority <= priority);
                    assert(o[i].arrival < self.next_arrival);
                } else if i < k {
                    assert(precedes(o[i], o[j - 1]));
                } else if i == k {
                    assert(o[j - 1].priority > priority);
                } else {
                    assert(precedes(o[i - 1], o[j - 1]));
                }
            }
            assert forall|i: int| 0 <= i < s.len() implies (#[trigger] s[i]).arrival < next_arrival by {
                if i < k {
                    assert(o[i].arrival < self.next_arrival);
                } else if i > k {
                    assert(o[i - 1].arrival < self.next_arrival);
                }
            }
            assert forall|i: int, j: int| 0 <= i < j < s.len() implies (#[trigger] s[i]).id != (#[trigger] s[j]).id by {
                if j < k {
                    assert(o[i].id != o[j].id);
                } else if j == k {
                    assert(o[i].id != id);
                } else if i < k {
                    assert(o[i].id != o[j - 1].id);
                } else if i == k {
                    assert(o[j - 1].id != id);
                } else {
                    assert(o[i - 1].id != o[j - 1].id);
                }
            }
        }
        let ops = self.build_ops(&slots, revision, Some(id), None);
        let commit = 1 + 1 + slots.len();
        Ok(SwapPlan { slots, revision, next_arrival, ops, commit })
    }

    /// Works out the swap that takes program `id` off this hook. When it was
    /// the last one, the dispatcher is only detached.
    pub fn plan_remove(&self, id: u128) -> (r: Result<SwapPlan, BpfdError>)
        requires
            self.wf(),
        ensures
            !holds_id(self.slots@, id) ==> r == Err::<SwapPlan, BpfdError>(BpfdError::NotFound(id)),
            holds_id(self.slots@, id) && self.revision == u64::MAX ==> r is Err,
            holds_id(self.slots@, id) && self.revision < u64::MAX ==> (r matches Ok(p) && {
                &&& self.advances_to(p)
                &&& p.next_arrival == self.next_arrival
                &&& exists|k: int| 0 <= k < self.slots@.len() && self.slots@[k].id == id && p.slots@ == self.slots@.remove(k)
                &&& p.ops@ == swap_ops(self.slots@, self.revision, p.slots@, p.revision, None, Some(id))
                &&& p.commit == commit_index(p.slots@, None)
            }),
    {
        let k = match self.position(id) {
            Some(k) => k,
            None => {
                return Err(BpfdError::NotFound(id));
            },
        };
        if self.revision == u64::MAX {
            return Err(BpfdError::Error(String::from_str("hook counters exhausted")));
        }
        let mut slots = self.copy_slots();
        slots.remove(k);
        let revision = self.revision + 1;
        proof {
            let s = slots@;
            let o = self.slots@;
            assert(s =~= o.remove(k as int));
            assert forall|i: int, j: int| 0 <= i < j < s.len() implies precedes(#[trigger] s[i], #[trigger] s[j]) by {
                if j < k {
                    assert(precedes(o[i], o[j]));
                } else if i < k {
                    assert(precedes(o[i], o[j + 1]));
                } else {
                    assert(precedes(o[i + 1], o[j + 1]));
                }
            }
            assert forall|i: int| 0 <= i < s.len() implies (#[trigger] s[i]).arrival < self.next_arrival by {
                if i < k {
                    assert(o[i].arrival < self.next_arrival);
                } else {
                    assert(o[i + 1].arrival < self.next_arrival);
                }
            }
            assert forall|i: int, j: int| 0 <= i < j < s.len() implies (#[trigger] s[i]).id != (#[trigger] s[j]).id by {
                if j < k {
                    assert(o[i].id != o[j].id);
                } else if i < k {
                    assert(o[i].id != o[j + 1].id);
                } else {
                    assert(o[i + 1].id != o[j + 1].id);
                }
            }
        }
        let ops = self.build_ops(&slots, revision, None, Some(id));
        let commit = if slots.len() > 0 { 1 + slots.len() } else { 0 };
        Ok(SwapPlan { slots, revision, next_arrival: self.next_arrival, ops, commit })
    }

    /// Records a swap whose commit step succeeded: the hook takes the plan's
    /// list and revision.
    pub fn commit(&mut self, plan: SwapPlan)
        requires
            old(self).wf(),
            old(self).advances_to(plan),
        ensures
            final(self).wf(),
            final(self).slots@ == plan.slots@,
            final(self).revision == plan.revision,
            final(self).revision > old(self).revision,
            final(self).next_arrival == plan.next_arrival,
            final(self).capacity == old(self).capacity,
    {
        self.slots = plan.slots;
        self.revision = plan.revision;
        self.next_arrival = plan.next_arrival;
    }
}

/// Programs of equal priority on a hook run in the order they arrived.
pub proof fn lemma_equal_priority_by_arrival(h: HookState, i: int, j: int)
    requires
        h.wf(),
        0 <= i < j < h.slots@.len(),
        h.slots@[i].priority == h.slots@[j].priority,
    ensures
        h.slots@[i].arrival < h.slots@[j].arrival,
{
    assert(precedes(h.slots@[i], h.slots@[j]));
}

/// Where the program at position `i` goes when one is added at `k`.
pub open spec fn pos_after_add(i: int, k: int) -> int {
    if i < k { i } else { i + 1 }
}

/// Where the program at position `i` goes when the one at `k` leaves.
pub open spec fn pos_after_remove(i: int, k: int) -> int {
    if i < k { i } else { i - 1 }
}

/// Adding a program at position `k` keeps the others in their relative
/// order: each moves one place at most, and earlier ones stay earlier.
pub proof fn lemma_add_keeps_order(old: Seq<HookSlot>, k: int, slot: HookSlot)
    requires
        0 <= k <= old.len(),
    ensures
        forall|i: int| 0 <= i < old.len() ==> old.insert(k, slot)[#[trigger] pos_after_add(i, k)] == old[i],
        forall|i: int, j: int| 0 <= i < j < old.len() ==> #[trigger] pos_after_add(i, k) < #[trigger] pos_after_add(j, k),
{
}

/// Removing the program at position `k` keeps the others in their relative
/// order: each moves one place at most, and earlier ones stay earlier.
pub proof fn lemma_remove_keeps_order(old: Seq<HookSlot>, k: int)
    requires
        0 <= k < old.len(),
    ensures
        forall|i: int| 0 <= i < old.len() && i != k ==> old.remove(k)[#[trigger] pos_after_remove(i, k)] == old[i],
        forall|i: int, j: int| 0 <= i < j < old.len() && i != k && j != k
            ==> #[trigger] pos_after_remove(i, k) < #[trigger] pos_after_remove(j, k),
{
}

} // verus!
