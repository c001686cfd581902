use vstd::prelude::*;
use crate::hook::{
    HookSlot, HookState, SwapPlan, KernelOp, holds_id, sorted_slots, slot_ops, load_op, unpin_op, retire_op, swap_ops, commit_index,
    undo_of, undo_ops,
};

verus! {

/// An object pinned in the daemon's filesystem.
pub enum Pin {
    Dispatcher(u64),
    Program(u128),
}

/// What the kernel holds for one hook: the pinned objects, the attached
/// dispatcher revision, and each loaded dispatcher's slot table.
pub struct KernelView {
    pub pinned: Set<Pin>,
    pub attached: Option<u64>,
    pub table: Map<(u64, int), u128>,
}

/// The effect of one operation.
pub open spec fn apply(op: KernelOp, k: KernelView) -> KernelView {
    match op {
        KernelOp::LoadDispatcher { revision, .. } => KernelView { pinned: k.pinned.insert(Pin::Dispatcher(revision)), ..k },
        KernelOp::LoadProgram { id } => KernelView { pinned: k.pinned.insert(Pin::Program(id)), ..k },
        KernelOp::SetSlot { revision, slot, id, .. } => KernelView { table: k.table.insert((revision, slot as int), id), ..k },
        KernelOp::Attach { revision } => KernelView { attached: Some(revision), ..k },
        KernelOp::Detach { revision } => KernelView {
            pinned: k.pinned.remove(Pin::Dispatcher(revision)),
            attached: if k.attached == Some(revision) { None } else { k.attached },
            ..k
        },
        KernelOp::UnpinDispatcher { revision } => KernelView { pinned: k.pinned.remove(Pin::Dispatcher(revision)), ..k },
        KernelOp::UnpinProgram { id } => KernelView { pinned: k.pinned.remove(Pin::Program(id)), ..k },
    }
}

/// The effect of a sequence of operations, in order.
pub open spec fn run(ops: Seq<KernelOp>, k: KernelView) -> KernelView
    decreases ops.len(),
{
    if ops.len() == 0 {
        k
    } else {
        apply(ops.last(), run(ops.drop_last(), k))
    }
}

/// Whether the kernel holds exactly the dispatcher of a hook with list
/// `slots` at `revision`: attached when the list is non-empty, each slot
/// pointing at the program in that position, no other dispatcher pinned, and
/// the pinned programs exactly those on the list.
pub open spec fn mirrors(slots: Seq<HookSlot>, revision: u64, k: KernelView) -> bool {
    &&& (slots.len() > 0 ==> k.attached == Some(revision))
    &&& (slots.len() == 0 ==> k.attached is None)
    &&& forall|i: int| 0 <= i < slots.len()
        ==> #[trigger] k.table.contains_key((revision, i)) && k.table[(revision, i)] == slots[i].id
    &&& forall|r: u64| #[trigger] k.pinned.contains(Pin::Dispatcher(r)) <==> (slots.len() > 0 && r == revision)
    &&& forall|id: u128| #[trigger] k.pinned.contains(Pin::Program(id)) <==> holds_id(slots, id)
}

proof fn lemma_run_one(op: KernelOp, k: KernelView)
    ensures
        run(seq![op], k) == apply(op, k),
{
    let s = seq![op];
    assert(s.drop_last() =~= Seq::<KernelOp>::empty());
    assert(s.last() == op);
    assert(run(s.drop_last(), k) == k);
}

proof fn lemma_run_concat(a: Seq<KernelOp>, b: Seq<KernelOp>, k: KernelView)
    ensures
        run(a + b, k) == run(b, run(a, k)),
    decreases b.len(),
{
    if b.len() == 0 {
        assert(a + b =~= a);
    } else {
        lemma_run_concat(a, b.drop_last(), k);
        assert((a + b).drop_last() =~= a + b.drop_last());
    }
}

proof fn lemma_run_slots(revision: u64, s: Seq<HookSlot>, k: KernelView)
    requires
        s.len() <= usize::MAX,
    ensures
        run(slot_ops(revision, s), k).pinned == k.pinned,
        run(slot_ops(revision, s), k).attached == k.attached,
        forall|i: int| 0 <= i < s.len() ==> #[trigger] run(slot_ops(revision, s), k).table.contains_key((revision, i))
            && run(slot_ops(revision, s), k).table[(revision, i)] == s[i].id,
        forall|key: (u64, int)| key.0 != revision ==> (#[trigger] run(slot_ops(revision, s), k).table.contains_key(key)
            <==> k.table.contains_key(key)) && run(slot_ops(revision, s), k).table[key] == k.table[key],
    decreases s.len(),
{
    if s.len() > 0 {
        lemma_run_slots(revision, s.drop_last(), k);
        assert(slot_ops(revision, s).drop_last() =~= slot_ops(revision, s.drop_last()));
        let n = s.len() - 1;
        assert(slot_ops(revision, s).last() == KernelOp::SetSlot {
            revision, slot: n as usize, id: s[n].id, proceed_on: s[n].proceed_on });
        let before = run(slot_ops(revision, s.drop_last()), k);
        let after = run(slot_ops(revision, s), k);
        assert(after == apply(slot_ops(revision, s).last(), before));
        assert forall|i: int| 0 <= i < s.len() implies #[trigger] after.table.contains_key((revision, i))
            && after.table[(revision, i)] == s[i].id by {
            if i < n {
                assert(before.table.contains_key((revision, i)));
                assert(s.drop_last()[i] == s[i]);
            }
        }
    } else {
        assert(slot_ops(revision, s) =~= Seq::<KernelOp>::empty());
    }
}

proof fn lemma_run_opt(fresh: Option<u128>, removed: Option<u128>, k: KernelView)
    ensures
        run(load_op(fresh), k) == (match fresh {
            Some(id) => KernelView { pinned: k.pinned.insert(Pin::Program(id)), ..k },
            None => k,
        }),
        run(unpin_op(removed), k) == (match removed {
            Some(id) => KernelView { pinned: k.pinned.remove(Pin::Program(id)), ..k },
            None => k,
        }),
{
    match fresh {
        Some(id) => lemma_run_one(KernelOp::LoadProgram { id }, k),
        None => {},
    }
    match removed {
        Some(id) => lemma_run_one(KernelOp::UnpinProgram { id }, k),
        None => {},
    }
}

/// A swap carried out in full installs the new list: starting from a kernel
/// that holds the old list at `old_rev`, running the swap's operations leaves
/// it holding the new list at `new_rev`, each slot pointing at the program in
/// that position and no other dispatcher pinned.
pub proof fn lemma_swap_installs_list(
    old: Seq<HookSlot>,
    old_rev: u64,
    new: Seq<HookSlot>,
    new_rev: u64,
    fresh: Option<u128>,
    removed: Option<u128>,
    k: KernelView,
)
    requires
        mirrors(old, old_rev, k),
        new_rev != old_rev,
        fresh matches Some(f) ==> !holds_id(old, f),
        removed matches Some(x) ==> holds_id(old, x),
        fresh != removed || fresh is None,
        forall|id: u128| holds_id(new, id) <==> ((holds_id(old, id) && removed != Some(id)) || fresh == Some(id)),
        new.len() <= usize::MAX,
    ensures
        mirrors(new, new_rev, run(swap_ops(old, old_rev, new, new_rev, fresh, removed), k)),
{
    let ops = swap_ops(old, old_rev, new, new_rev, fresh, removed);
    if new.len() > 0 {
        let a = seq![KernelOp::LoadDispatcher { revision: new_rev, slots: new.len() as usize }];
        let b = load_op(fresh);
        let c = slot_ops(new_rev, new);
        let d = seq![KernelOp::Attach { revision: new_rev }];
        let e = retire_op(old, old_rev);
        let f = unpin_op(removed);
        lemma_run_concat(a + b + c + d + e, f, k);
        lemma_run_concat(a + b + c + d, e, k);
        lemma_run_concat(a + b + c, d, k);
        lemma_run_concat(a + b, c, k);
        lemma_run_concat(a, b, k);
        let k1 = run(a, k);
        lemma_run_one(KernelOp::LoadDispatcher { revision: new_rev, slots: new.len() as usize }, k);
        let k2 = run(b, k1);
        lemma_run_opt(fresh, removed, k1);
        let k3 = run(c, k2);
        lemma_run_slots(new_rev, new, k2);
        let k4 = run(d, k3);
        lemma_run_one(KernelOp::Attach { revision: new_rev }, k3);
        let k5 = run(e, k4);
        if old.len() > 0 {
            lemma_run_one(KernelOp::Detach { revision: old_rev }, k4);
        } else {
            assert(e =~= Seq::<KernelOp>::empty());
        }
        let k6 = run(f, k5);
        lemma_run_opt(fresh, removed, k5);
        assert(ops == a + b + c + d + e + f);
        assert forall|r: u64| #[trigger] k6.pinned.contains(Pin::Dispatcher(r)) <==> r == new_rev by {
            assert(k.pinned.contains(Pin::Dispatcher(r)) <==> (old.len() > 0 && r == old_rev));
        }
        assert forall|id: u128| #[trigger] k6.pinned.contains(Pin::Program(id)) <==> holds_id(new, id) by {
            assert(k.pinned.contains(Pin::Program(id)) <==> holds_id(old, id));
        }
        assert forall|i: int| 0 <= i < new.len() implies #[trigger] k6.table.contains_key((new_rev, i))
            && k6.table[(new_rev, i)] == new[i].id by {
            assert(k3.table.contains_key((new_rev, i)));
        }
    } else {
        let e = retire_op(old, old_rev);
        let f = unpin_op(removed);
        lemma_run_concat(e, f, k);
        let k5 = run(e, k);
        if old.len() > 0 {
            lemma_run_one(KernelOp::Detach { revision: old_rev }, k);
        } else {
            assert(e =~= Seq::<KernelOp>::empty());
        }
        let k6 = run(f, k5);
        lemma_run_opt(fresh, removed, k5);
        assert forall|r: u64| !(#[trigger] k6.pinned.contains(Pin::Dispatcher(r))) by {
            assert(k.pinned.contains(Pin::Dispatcher(r)) <==> (old.len() > 0 && r == old_rev));
        }
        assert forall|id: u128| #[trigger] k6.pinned.contains(Pin::Program(id)) <==> holds_id(new, id) by {
            assert(k.pinned.contains(Pin::Program(id)) <==> holds_id(old, id));
        }
    }
}

proof fn lemma_undo_concat(a: Seq<KernelOp>, b: Seq<KernelOp>)
    ensures
        undo_ops(a + b) == undo_ops(b) + undo_ops(a),
    decreases b.len(),
{
    if b.len() == 0 {
        assert(a + b =~= a);
        assert(undo_ops(b) + undo_ops(a) =~= undo_ops(a));
    } else {
        lemma_undo_concat(a, b.drop_last());
        assert((a + b).drop_last() =~= a + b.drop_last());
        assert(undo_ops(a + b) =~= undo_of(b.last()) + (undo_ops(b.drop_last()) + undo_ops(a)));
    }
}

proof fn lemma_undo_one(op: KernelOp)
    ensures
        undo_ops(seq![op]) == undo_of(op),
{
    let s = seq![op];
    assert(s.drop_last() =~= Seq::<KernelOp>::empty());
    assert(s.last() == op);
    assert(undo_ops(s.drop_last()) == Seq::<KernelOp>::empty());
    assert(undo_ops(s) == undo_of(op) + undo_ops(s.drop_last()));
    assert(undo_of(op) + Seq::<KernelOp>::empty() =~= undo_of(op));
}

proof fn lemma_undo_slots(revision: u64, s: Seq<HookSlot>)
    ensures
        undo_ops(slot_ops(revision, s)) == Seq::<KernelOp>::empty(),
    decreases s.len(),
{
    if s.len() > 0 {
        lemma_undo_slots(revision, s.drop_last());
        assert(slot_ops(revision, s).drop_last() =~= slot_ops(revision, s.drop_last()));
        assert(undo_of(slot_ops(revision, s).last()) =~= Seq::<KernelOp>::empty());
        assert(undo_ops(slot_ops(revision, s)) =~= Seq::<KernelOp>::empty());
    } else {
        assert(slot_ops(revision, s) =~= Seq::<KernelOp>::empty());
    }
}

/// A swap that fails at or before its commit step changes nothing once rolled
/// back: the operations before the failed one, followed by their undoing,
/// leave the pinned objects and the attached dispatcher as they were, and the
/// kernel still holds the old list. The hook's own state is only replaced by
/// a commit, so its list and revision stay as they were too.
pub proof fn lemma_failed_swap_leaves_hook(
    old: Seq<HookSlot>,
    old_rev: u64,
    new: Seq<HookSlot>,
    new_rev: u64,
    fresh: Option<u128>,
    removed: Option<u128>,
    k: KernelView,
    failed: int,
)
    requires
        mirrors(old, old_rev, k),
        new_rev != old_rev,
        fresh matches Some(f) ==> !holds_id(old, f),
        new.len() <= usize::MAX,
        0 <= failed <= commit_index(new, fresh),
    ensures
        ({
            let done = swap_ops(old, old_rev, new, new_rev, fresh, removed).take(failed);
            let back = run(undo_ops(done), run(done, k));
            &&& back.pinned == k.pinned
            &&& back.attached == k.attached
            &&& mirrors(old, old_rev, back)
        }),
{
    let ops = swap_ops(old, old_rev, new, new_rev, fresh, removed);
    let done = ops.take(failed);
    if failed == 0 {
        assert(done =~= Seq::<KernelOp>::empty());
        assert(undo_ops(done) =~= Seq::<KernelOp>::empty());
    } else {
        let a = seq![KernelOp::LoadDispatcher { revision: new_rev, slots: new.len() as usize }];
        let b = load_op(fresh);
        let c = slot_ops(new_rev, new);
        let j1: int = if failed - 1 <= b.len() { failed - 1 } else { b.len() as int };
        let j2: int = failed - 1 - j1;
        let bb = b.take(j1);
        let cc = c.take(j2);
        assert(cc =~= slot_ops(new_rev, new.take(j2)));
        assert(done =~= a + bb + cc);
        lemma_run_concat(a + bb, cc, k);
        lemma_run_concat(a, bb, k);
        lemma_undo_concat(a + bb, cc);
        lemma_undo_concat(a, bb);
        lemma_undo_slots(new_rev, new.take(j2));
        assert(undo_ops(done) =~= undo_ops(bb) + undo_ops(a));
        let k1 = run(a, k);
        lemma_run_one(KernelOp::LoadDispatcher { revision: new_rev, slots: new.len() as usize }, k);
        let k2 = run(bb, k1);
        let k3 = run(slot_ops(new_rev, new.take(j2)), k2);
        lemma_run_slots(new_rev, new.take(j2), k2);
        assert(run(cc, k2) == k3);
        lemma_undo_one(KernelOp::LoadDispatcher { revision: new_rev, slots: new.len() as usize });
        lemma_run_concat(undo_ops(bb), undo_ops(a), k3);
        let k4 = run(undo_ops(bb), k3);
        let k5 = run(undo_ops(a), k4);
        lemma_run_one(KernelOp::UnpinDispatcher { revision: new_rev }, k4);
        if j1 == 1 {
            let f = fresh->Some_0;
            assert(bb =~= seq![KernelOp::LoadProgram { id: f }]);
            lemma_run_one(KernelOp::LoadProgram { id: f }, k1);
            lemma_undo_one(KernelOp::LoadProgram { id: f });
            lemma_run_one(KernelOp::UnpinProgram { id: f }, k3);
            assert(!k.pinned.contains(Pin::Program(f)));
        } else {
            assert(bb =~= Seq::<KernelOp>::empty());
            assert(undo_ops(bb) =~= Seq::<KernelOp>::empty());
        }
        assert(!k.pinned.contains(Pin::Dispatcher(new_rev)));
        assert(k5.pinned =~= k.pinned);
        assert(k1.table == k.table);
        assert(k2.table == k1.table);
        assert(k4.table == k3.table);
        assert(k5.table == k4.table);
        assert forall|i: int| 0 <= i < old.len() implies #[trigger] k5.table.contains_key((old_rev, i))
            && k5.table[(old_rev, i)] == old[i].id by {
            assert(k.table.contains_key((old_rev, i)));
            assert(k2.table.contains_key((old_rev, i)));
        }
    }
}

/// When a hook's last program leaves, the hook keeps no dispatcher: none is
/// attached, none is pinned, and the program is unpinned too.
pub proof fn lemma_last_removal_leaves_no_dispatcher(
    old: Seq<HookSlot>,
    old_rev: u64,
    new_rev: u64,
    id: u128,
    k: KernelView,
)
    requires
        mirrors(old, old_rev, k),
        old.len() == 1,
        old[0].id == id,
        new_rev != old_rev,
    ensures
        ({
            let after = run(swap_ops(old, old_rev, Seq::empty(), new_rev, None, Some(id)), k);
            &&& after.attached is None
            &&& forall|r: u64| !(#[trigger] after.pinned.contains(Pin::Dispatcher(r)))
            &&& !after.pinned.contains(Pin::Program(id))
        }),
{
    assert(holds_id(old, id));
    assert forall|x: u128| holds_id(Seq::<HookSlot>::empty(), x)
        <==> ((holds_id(old, x) && Some(id) != Some(x)) || None::<u128> == Some(x)) by {
        if holds_id(old, x) {
            let i = choose|i: int| 0 <= i < old.len() && (#[trigger] old[i]).id == x;
            assert(i == 0);
        }
    }
    lemma_swap_installs_list(old, old_rev, Seq::empty(), new_rev, None, Some(id), k);
}

/// Adding a program to a hook and removing it again brings back the same
/// list, with the same programs pinned, under a later revision. A hook that
/// had no programs is left exactly as it was: nothing attached, nothing pinned.
pub proof fn lemma_add_remove_restores_hook(
    old: Seq<HookSlot>,
    rev: u64,
    slot: HookSlot,
    k: int,
    j: int,
    kv: KernelView,
)
    requires
        mirrors(old, rev, kv),
        !holds_id(old, slot.id),
        0 <= k <= old.len(),
        old.len() < usize::MAX,
        rev + 2 <= u64::MAX,
        0 <= j <= old.len(),
        old.insert(k, slot)[j].id == slot.id,
    ensures
        ({
            let new = old.insert(k, slot);
            let id = slot.id;
            let kv1 = run(swap_ops(old, rev, new, (rev + 1) as u64, Some(id), None), kv);
            let kv2 = run(swap_ops(new, (rev + 1) as u64, new.remove(j), (rev + 2) as u64, None, Some(id)), kv1);
            &&& new.remove(j) == old
            &&& mirrors(old, (rev + 2) as u64, kv2)
            &&& forall|x: u128| #[trigger] kv2.pinned.contains(Pin::Program(x)) == kv.pinned.contains(Pin::Program(x))
            &&& (old.len() == 0 ==> kv2.pinned == kv.pinned && kv2.attached == kv.attached)
        }),
{
    let new = old.insert(k, slot);
    let id = slot.id;
    if j != k {
        if j < k {
            assert(new[j] == old[j]);
        } else {
            assert(new[j] == old[j - 1]);
        }
        assert(false);
    }
    assert(new.remove(j) =~= old);
    assert forall|x: u128| holds_id(new, x) <==> ((holds_id(old, x) && None::<u128> != Some(x)) || Some(id) == Some(x)) by {
        if holds_id(new, x) {
            let i = choose|i: int| 0 <= i < new.len() && (#[trigger] new[i]).id == x;
            if i < k {
                assert(old[i].id == x);
            } else if i > k {
                assert(old[i - 1].id == x);
            }
        }
        if holds_id(old, x) {
            let i = choose|i: int| 0 <= i < old.len() && (#[trigger] old[i]).id == x;
            if i < k {
                assert(new[i].id == x);
            } else {
                assert(new[i + 1].id == x);
            }
        }
        if x == id {
            assert(new[k].id == x);
        }
    }
    lemma_swap_installs_list(old, rev, new, (rev + 1) as u64, Some(id), None, kv);
    let kv1 = run(swap_ops(old, rev, new, (rev + 1) as u64, Some(id), None), kv);
    assert(new[k].id == id);
    assert forall|x: u128| holds_id(old, x) <==> ((holds_id(new, x) && Some(id) != Some(x)) || None::<u128> == Some(x)) by {
        if holds_id(new, x) && x != id {
            let i = choose|i: int| 0 <= i < new.len() && (#[trigger] new[i]).id == x;
            if i < k {
                assert(old[i].id == x);
            } else if i > k {
                assert(old[i - 1].id == x);
            }
        }
        if holds_id(old, x) {
            let i = choose|i: int| 0 <= i < old.len() && (#[trigger] old[i]).id == x;
            if i < k {
                assert(new[i].id == x);
            } else {
                assert(new[i + 1].id == x);
            }
        }
    }
    assert(holds_id(new, id));
    lemma_swap_installs_list(new, (rev + 1) as u64, old, (rev + 2) as u64, None, Some(id), kv1);
    let kv2 = run(swap_ops(new, (rev + 1) as u64, old, (rev + 2) as u64, None, Some(id)), kv1);
    if old.len() == 0 {
        assert forall|p: Pin| #[trigger] kv2.pinned.contains(p) == kv.pinned.contains(p) by {
            match p {
                Pin::Dispatcher(r) => {
                    assert(!kv2.pinned.contains(Pin::Dispatcher(r)));
                    assert(!kv.pinned.contains(Pin::Dispatcher(r)));
                },
                Pin::Program(x) => {
                    assert(!holds_id(old, x));
                    assert(!kv2.pinned.contains(Pin::Program(x)));
                    assert(!kv.pinned.contains(Pin::Program(x)));
                },
            }
        }
        assert(kv2.pinned =~= kv.pinned);
    }
}

/// The programs on a list with `slot` added at `k` are those on the list
/// and the newcomer.
proof fn lemma_holds_after_insert(old: Seq<HookSlot>, k: int, slot: HookSlot)
    requires
        0 <= k <= old.len(),
    ensures
        forall|x: u128| holds_id(old.insert(k, slot), x) <==> (holds_id(old, x) || slot.id == x),
{
    let new = old.insert(k, slot);
    assert forall|x: u128| holds_id(new, x) <==> (holds_id(old, x) || slot.id == x) by {
        if holds_id(new, x) {
            let i = choose|i: int| 0 <= i < new.len() && (#[trigger] new[i]).id == x;
            if i < k {
                assert(old[i].id == x);
            } else if i > k {
                assert(old[i - 1].id == x);
            }
        }
        if holds_id(old, x) {
            let i = choose|i: int| 0 <= i < old.len() && (#[trigger] old[i]).id == x;
            if i < k {
                assert(new[i].id == x);
            } else {
                assert(new[i + 1].id == x);
            }
        }
        if x == slot.id {
            assert(new[k].id == x);
        }
    }
}

/// The programs on a list of distinct programs without the one at `k` are
/// all the others.
proof fn lemma_holds_after_remove(old: Seq<HookSlot>, k: int)
    requires
        0 <= k < old.len(),
        forall|i: int, j: int| 0 <= i < j < old.len() ==> (#[trigger] old[i]).id != (#[trigger] old[j]).id,
    ensures
        forall|x: u128| holds_id(old.remove(k), x) <==> (holds_id(old, x) && old[k].id != x),
{
    let new = old.remove(k);
    assert forall|x: u128| holds_id(new, x) <==> (holds_id(old, x) && old[k].id != x) by {
        if holds_id(new, x) {
            let i = choose|i: int| 0 <= i < new.len() && (#[trigger] new[i]).id == x;
            if i < k {
                assert(old[i].id == x);
                assert(old[i].id != old[k].id);
            } else {
                assert(old[i + 1].id == x);
                assert(old[k].id != old[i + 1].id);
            }
        }
        if holds_id(old, x) && old[k].id != x {
            let i = choose|i: int| 0 <= i < old.len() && (#[trigger] old[i]).id == x;
            if i < k {
                assert(new[i].id == x);
            } else {
                assert(i != k);
                assert(new[i - 1].id == x);
            }
        }
    }
}

/// A committed addition installs the hook's new list as it is stored: from a
/// kernel that holds the hook's list, the plan's operations leave the new
/// dispatcher attached with slot `i` pointing at the program in position
/// `i` of the plan's list, that list in priority order (ties by arrival), and
/// nothing else pinned.
pub proof fn lemma_add_installs_sorted_list(h: HookState, p: SwapPlan, slot: HookSlot, kv: KernelView)
    requires
        h.wf(),
        h.advances_to(p),
        !holds_id(h.slots@, slot.id),
        exists|k: int| 0 <= k <= h.slots@.len() && p.slots@ == #[trigger] h.slots@.insert(k, slot),
        p.ops@ == swap_ops(h.slots@, h.revision, p.slots@, p.revision, Some(slot.id), None),
        mirrors(h.slots@, h.revision, kv),
    ensures
        mirrors(p.slots@, p.revision, run(p.ops@, kv)),
        sorted_slots(p.slots@),
{
    let k = choose|k: int| 0 <= k <= h.slots@.len() && p.slots@ == #[trigger] h.slots@.insert(k, slot);
    lemma_holds_after_insert(h.slots@, k, slot);
    lemma_swap_installs_list(h.slots@, h.revision, p.slots@, p.revision, Some(slot.id), None, kv);
}

/// A committed removal installs the hook's shorter list as it is stored, as
/// for an addition; with no program left, nothing is attached or pinned.
pub proof fn lemma_remove_installs_sorted_list(h: HookState, p: SwapPlan, id: u128, kv: KernelView)
    requires
        h.wf(),
        h.advances_to(p),
        exists|k: int| 0 <= k < h.slots@.len() && h.slots@[k].id == id && p.slots@ == #[trigger] h.slots@.remove(k),
        p.ops@ == swap_ops(h.slots@, h.revision, p.slots@, p.revision, None, Some(id)),
        mirrors(h.slots@, h.revision, kv),
    ensures
        mirrors(p.slots@, p.revision, run(p.ops@, kv)),
        sorted_slots(p.slots@),
{
    let k = choose|k: int| 0 <= k < h.slots@.len() && h.slots@[k].id == id && p.slots@ == #[trigger] h.slots@.remove(k);
    lemma_holds_after_remove(h.slots@, k);
    assert(holds_id(h.slots@, id));
    lemma_swap_installs_list(h.slots@, h.revision, p.slots@, p.revision, None, Some(id), kv);
}

} // verus!
