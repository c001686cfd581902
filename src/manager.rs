use vstd::prelude::*;
use crate::errors::BpfdError;
use crate::hook::{HookSlot, HookState, SwapPlan, holds_id};
use crate::proceed_on::{xdp_mask_of, tc_mask_of};
use crate::program::{DispatcherId, DispatcherInfo, Program};
use crate::registry::{Registry, insert_refusal, record_id, owner_of, stamped, users_after_insert, users_after_remove, positions_stamped, positioned, without_users};

verus! {

/// Programs a fast-path dispatcher can hold.
pub const FAST_PATH_SLOTS: usize = 1;

/// Programs a steering dispatcher can hold.
pub const STEERING_SLOTS: usize = 10;

/// The number of slots of a hook's dispatcher, by hook kind.
pub open spec fn capacity_of(key: DispatcherId) -> usize {
    match key {
        DispatcherId::Xdp(_) => FAST_PATH_SLOTS,
        DispatcherId::Tc(_) => STEERING_SLOTS,
    }
}

/// What a dispatching program asks of its hook: the hook, its priority and
/// its proceed-on mask. Other kinds ask for nothing.
pub open spec fn slot_request(p: Program) -> Option<(DispatcherId, i32, u32)> {
    match p {
        Program::Xdp(x) => Some((
            DispatcherId::Xdp(DispatcherInfo(x.if_index->Some_0, None)),
            x.priority,
            xdp_mask_of(x.proceed_on.0@),
        )),
        Program::Tc(t) => Some((
            DispatcherId::Tc(DispatcherInfo(t.if_index->Some_0, Some(t.direction))),
            t.priority,
            tc_mask_of(t.proceed_on.0@),
        )),
        _ => None,
    }
}

/// The program as it is filed once its dispatcher swap committed.
pub open spec fn attached_form(p: Program) -> Program {
    match p {
        Program::Xdp(x) => Program::Xdp(crate::program::XdpProgram { attached: true, ..x }),
        Program::Tc(t) => Program::Tc(crate::program::TcProgram { attached: true, ..t }),
        other => other,
    }
}

/// Whether `new` is `old` with `slot` added at some position.
pub open spec fn adds_slot(old: Seq<HookSlot>, new: Seq<HookSlot>, slot: HookSlot) -> bool {
    exists|k: int| 0 <= k <= old.len() && new == #[trigger] old.insert(k, slot)
}

/// The slots of the hook a plan is for: none for a hook with no entry yet.
pub open spec fn planned_hook_slots(hooks: Seq<(DispatcherId, HookState)>, plan: HookPlan) -> Seq<HookSlot> {
    if plan.hook < hooks.len() {
        hooks[plan.hook as int].1.slots@
    } else {
        Seq::empty()
    }
}

/// The hook a registered program sits on, once its interface is known.
pub open spec fn hook_key_of(p: Program) -> Option<DispatcherId> {
    match p {
        Program::Xdp(x) => match x.if_index {
            Some(i) => Some(DispatcherId::Xdp(DispatcherInfo(i, None))),
            None => None,
        },
        Program::Tc(t) => match t.if_index {
            Some(i) => Some(DispatcherId::Tc(DispatcherInfo(i, Some(t.direction)))),
            None => None,
        },
        _ => None,
    }
}

/// The hook table after a committed swap: the planned hook takes the plan's
/// list and revision, a new hook is appended under its key, and every other
/// hook is as it was.
pub open spec fn hooks_after(old: Seq<(DispatcherId, HookState)>, new: Seq<(DispatcherId, HookState)>, plan: HookPlan) -> bool {
    &&& new.len() == if plan.hook < old.len() { old.len() } else { old.len() + 1 }
    &&& new[plan.hook as int].0 == plan.key
    &&& new[plan.hook as int].1.slots@ == plan.swap.slots@
    &&& new[plan.hook as int].1.revision == plan.swap.revision
    &&& forall|j: int| 0 <= j < old.len() && j != plan.hook ==> #[trigger] new[j] == old[j]
}

/// The identifiers on a list of slots, in order.
pub open spec fn slot_ids(s: Seq<HookSlot>) -> Seq<u128> {
    s.map_values(|x: HookSlot| x.id)
}

/// Whether `new` is `old` with a slot for program `id` added somewhere.
pub open spec fn adds_program(old: Seq<HookSlot>, new: Seq<HookSlot>, id: u128) -> bool {
    exists|k: int, s: HookSlot| 0 <= k <= old.len() && s.id == id && new == #[trigger] old.insert(k, s)
}

/// Stamping positions keeps every record, and the hook each belongs to.
proof fn lemma_stamp_keeps_keys(before: Map<u128, Program>, after: Map<u128, Program>, ids: Seq<u128>)
    requires
        positions_stamped(before, after, ids),
    ensures
        forall|x: u128| #[trigger] after.contains_key(x) <==> before.contains_key(x),
        forall|x: u128| before.contains_key(x) ==> hook_key_of(#[trigger] after[x]) == hook_key_of(before[x]),
{
    assert forall|x: u128| #[trigger] after.contains_key(x) <==> before.contains_key(x) by {
        assert(after.dom().contains(x) == before.dom().contains(x));
    }
    assert forall|x: u128| before.contains_key(x) implies hook_key_of(#[trigger] after[x]) == hook_key_of(before[x]) by {
        if ids.contains(x) {
            let i = choose|i: int| 0 <= i < ids.len() && ids[i] == x;
            assert(after[ids[i]] == positioned(before[ids[i]], Some(i as usize)));
        }
    }
}

/// A swap on one hook: the hook's index in the table (the table's length for
/// a hook that has no entry yet), its key, and the planned swap.
#[derive(Debug, Clone)]
pub struct HookPlan {
    pub hook: usize,
    pub key: DispatcherId,
    pub swap: SwapPlan,
}

/// The daemon's state: the registry, and the dispatcher state of each hook
/// that has had programs.
pub struct Manager {
    pub registry: Registry,
    pub hooks: Vec<(DispatcherId, HookState)>,
}

impl Manager {
    pub open spec fn wf(&self) -> bool {
        &&& self.table_wf()
        &&& self.hooks_match_registry()
    }

    /// The registry and every hook well formed, one entry per hook key.
    pub open spec fn table_wf(&self) -> bool {
        &&& self.registry.wf()
        &&& forall|i: int| 0 <= i < self.hooks@.len() ==> {
            &&& (#[trigger] self.hooks@[i]).1.wf()
            &&& self.hooks@[i].1.capacity == capacity_of(self.hooks@[i].0)
        }
        &&& forall|i: int, j: int| 0 <= i < j < self.hooks@.len() ==> (#[trigger] self.hooks@[i]).0 != (#[trigger] self.hooks@[j]).0
    }

    /// Every program on a hook's list is registered and belongs to that
    /// hook, and every registered program that belongs to a hook is on the
    /// list of that hook.
    pub open spec fn hooks_match_registry(&self) -> bool {
        &&& forall|i: int, k: int| 0 <= i < self.hooks@.len() && 0 <= k < self.hooks@[i].1.slots@.len() ==> {
            let x = (#[trigger] self.hooks@[i].1.slots@[k]).id;
            &&& self.registry.progs().contains_key(x)
            &&& hook_key_of(self.registry.progs()[x]) == Some(self.hooks@[i].0)
        }
        &&& forall|x: u128| #[trigger] self.registry.progs().contains_key(x) && hook_key_of(self.registry.progs()[x]) is Some
            ==> exists|i: int| 0 <= i < self.hooks@.len() && (#[trigger] self.hooks@[i]).0 == hook_key_of(self.registry.progs()[x])->Some_0
                && holds_id(self.hooks@[i].1.slots@, x)
    }

    /// Whether `plan` is a swap of this table: of an existing hook under its
    /// key, or of a new hook, with no entry yet, whose first swap it is.
    pub open spec fn fits(&self, plan: HookPlan) -> bool {
        &&& plan.hook <= self.hooks@.len()
        &&& plan.hook < self.hooks@.len() ==> {
            &&& self.hooks@[plan.hook as int].0 == plan.key
            &&& self.hooks@[plan.hook as int].1.advances_to(plan.swap)
        }
        &&& plan.hook == self.hooks@.len() ==> {
            &&& forall|j: int| 0 <= j < self.hooks@.len() ==> (#[trigger] self.hooks@[j]).0 != plan.key
            &&& (HookState { slots: plan.swap.slots, revision: 0, next_arrival: 0, capacity: capacity_of(plan.key) }).advances_to(plan.swap)
        }
    }

    /// An empty daemon state.
    pub fn new() -> (r: Manager)
        ensures
            r.wf(),
            r.registry.progs().len() == 0,
            r.hooks@.len() == 0,
    {
        Manager { registry: Registry::new(), hooks: Vec::new() }
    }

    /// The index of the hook with `key`, if it has an entry.
    pub fn hook_index(&self, key: DispatcherId) -> (r: Option<usize>)
        ensures
            match r {
                Some(i) => i < self.hooks@.len() && self.hooks@[i as int].0 == key,
                None => forall|j: int| 0 <= j < self.hooks@.len() ==> (#[trigger] self.hooks@[j]).0 != key,
            },
    {
        let mut i: usize = 0;
        while i < self.hooks.len()
            invariant
                i <= self.hooks@.len(),
                forall|j: int| 0 <= j < i ==> (#[trigger] self.hooks@[j]).0 != key,
            decreases self.hooks@.len() - i,
        {
            if self.hooks[i].0 == key {
                return Some(i);
            }
            i = i + 1;
        }
        None
    }

    /// The position of program `id` in the dispatcher of hook `key`.
    pub fn position(&self, key: DispatcherId, id: u128) -> (r: Option<usize>)
        requires
            self.wf(),
        ensures
            r matches Some(p) ==> exists|i: int| 0 <= i < self.hooks@.len() && (#[trigger] self.hooks@[i]).0 == key
                && p < self.hooks@[i].1.slots@.len() && self.hooks@[i].1.slots@[p as int].id == id,
            r is None ==> forall|i: int| 0 <= i < self.hooks@.len() && (#[trigger] self.hooks@[i]).0 == key
                ==> !holds_id(self.hooks@[i].1.slots@, id),
    {
        match self.hook_index(key) {
            Some(i) => {
                let r = self.hooks[i].1.position(id);
                proof {
                    assert forall|j: int| 0 <= j < self.hooks@.len() && (#[trigger] self.hooks@[j]).0 == key
                        implies j == i by {
                        if j != i {
                            assert(self.hooks@[i as int].0 != self.hooks@[j].0);
                        }
                    }
                }
                r
            },
            None => None,
        }
    }

    /// Checks a load of `program` under `id` and works out its dispatcher
    /// swap, before anything is done in the kernel. The registry must accept
    /// the record; a dispatching program then gets the swap that adds it to
    /// its hook, and any other kind needs none.
    pub fn plan_load(&self, program: &Program, id: u128) -> (r: Result<Option<HookPlan>, BpfdError>)
        requires
            self.wf(),
            program.hook_known(),
        ensures
            program.spec_data() is None ==> r matches Err(BpfdError::Error(_)),
            program.spec_data() is Some && insert_refusal(self.registry.progs(), self.registry.users(), *program, id) is Some
                ==> r == Err::<Option<HookPlan>, BpfdError>(
                    insert_refusal(self.registry.progs(), self.registry.users(), *program, id)->Some_0),
            program.spec_data() is Some && insert_refusal(self.registry.progs(), self.registry.users(), *program, id) is None
                ==> match slot_request(*program) {
                    None => r == Ok::<Option<HookPlan>, BpfdError>(None),
                    Some((key, priority, mask)) => {
                        &&& (r is Ok ==> (r matches Ok(Some(plan)) && plan.key == key && self.fits(plan)
                            && adds_slot(planned_hook_slots(self.hooks@, plan), plan.swap.slots@, HookSlot {
                                id,
                                priority,
                                arrival: (plan.swap.next_arrival - 1) as u64,
                                proceed_on: mask,
                            })))
                        &&& ((forall|j: int| 0 <= j < self.hooks@.len() ==> (#[trigger] self.hooks@[j]).0 != key) ==> r is Ok)
                        &&& (forall|j: int| 0 <= j < self.hooks@.len() && (#[trigger] self.hooks@[j]).0 == key ==> {
                            let h = self.hooks@[j].1;
                            &&& (holds_id(h.slots@, id) ==> r == Err::<Option<HookPlan>, BpfdError>(BpfdError::AlreadyExists(id)))
                            &&& (!holds_id(h.slots@, id) && h.slots@.len() >= h.capacity
                                ==> r == Err::<Option<HookPlan>, BpfdError>(BpfdError::TooManyPrograms(id)))
                            &&& (!holds_id(h.slots@, id) && h.slots@.len() < h.capacity && h.revision < u64::MAX
                                && h.next_arrival < u64::MAX ==> r is Ok)
                            &&& (!holds_id(h.slots@, id) && h.slots@.len() < h.capacity
                                && (h.revision == u64::MAX || h.next_arrival == u64::MAX) ==> r is Err)
                        })
                    },
                },
    {
        match self.registry.check_insert(program, id) {
            Ok(()) => {},
            Err(e) => {
                return Err(e);
            },
        }
        let (key, priority, mask) = match program {
            Program::Xdp(x) => match x.if_index {
                Some(i) => (DispatcherId::Xdp(DispatcherInfo(i, None)), x.priority, x.proceed_on.mask()),
                None => {
                    return Ok(None);
                },
            },
            Program::Tc(t) => match t.if_index {
                Some(i) => (DispatcherId::Tc(DispatcherInfo(i, Some(t.direction))), t.priority, t.proceed_on.mask()),
                None => {
                    return Ok(None);
                },
            },
            _ => {
                return Ok(None);
            },
        };
        let capacity = match key {
            DispatcherId::Xdp(_) => FAST_PATH_SLOTS,
            DispatcherId::Tc(_) => STEERING_SLOTS,
        };
        match self.hook_index(key) {
            Some(i) => {
                proof {
                    assert forall|j: int| 0 <= j < self.hooks@.len() && (#[trigger] self.hooks@[j]).0 == key
                        implies j == i by {
                        if j != i {
                            assert(self.hooks@[i as int].0 != self.hooks@[j].0);
                        }
                    }
                }
                let swap = self.hooks[i].1.plan_add(id, priority, mask)?;
                let plan = HookPlan { hook: i, key, swap };
                proof {
                    assert(self.hooks@[i as int].1.wf());
                    assert(self.fits(plan));
                    let h = self.hooks@[i as int].1.slots@;
                    let slot = HookSlot { id, priority, arrival: (plan.swap.next_arrival - 1) as u64, proceed_on: mask };
                    let k = choose|k: int| 0 <= k <= h.len() && plan.swap.slots@ == h.insert(k, slot);
                    assert(plan.swap.slots@ == h.insert(k, slot));
                    assert(adds_slot(planned_hook_slots(self.hooks@, plan), plan.swap.slots@, slot));
                }
                Ok(Some(plan))
            },
            None => {
                let fresh = HookState::new(capacity);
                let swap = fresh.plan_add(id, priority, mask)?;
                let plan = HookPlan { hook: self.hooks.len(), key, swap };
                proof {
                    assert(fresh.slots@ =~= Seq::<HookSlot>::empty());
                    assert(capacity == capacity_of(key));
                    assert(fresh.advances_to(plan.swap));
                    assert(self.fits(plan));
                    let h = Seq::<HookSlot>::empty();
                    let slot = HookSlot { id, priority, arrival: (plan.swap.next_arrival - 1) as u64, proceed_on: mask };
                    let k = choose|k: int| 0 <= k <= fresh.slots@.len() && plan.swap.slots@ == fresh.slots@.insert(k, slot);
                    assert(plan.swap.slots@ == h.insert(k, slot));
                    assert(adds_slot(planned_hook_slots(self.hooks@, plan), plan.swap.slots@, slot));
                }
                Ok(Some(plan))
            },
        }
    }
    /// Commits the swap of `plan` to the hook table.
    fn commit_hook(&mut self, plan: HookPlan)
        requires
            old(self).table_wf(),
            old(self).fits(plan),
        ensures
            final(self).table_wf(),
            final(self).registry == old(self).registry,
            hooks_after(old(self).hooks@, final(self).hooks@, plan),
    {
        let ghost before = self.hooks@;
        if plan.hook < self.hooks.len() {
            let (key, mut h) = self.hooks.remove(plan.hook);
            h.commit(plan.swap);
            self.hooks.insert(plan.hook, (key, h));
            proof {
                assert forall|j: int| 0 <= j < before.len() && j != plan.hook implies #[trigger] self.hooks@[j] == before[j] by {
                }
            }
        } else {
            let capacity = match plan.key {
                DispatcherId::Xdp(_) => FAST_PATH_SLOTS,
                DispatcherId::Tc(_) => STEERING_SLOTS,
            };
            let mut h = HookState::new(capacity);
            h.commit(plan.swap);
            self.hooks.push((plan.key, h));
        }
        proof {
            let now = self.hooks@;
            assert forall|i: int, j: int| 0 <= i < j < now.len() implies (#[trigger] now[i]).0 != (#[trigger] now[j]).0 by {
                if i != plan.hook && j != plan.hook {
                    assert(now[i] == before[i] && now[j] == before[j]);
                } else if i == plan.hook {
                    assert(now[j] == before[j]);
                } else {
                    assert(now[i] == before[i]);
                }
            }
            assert forall|i: int| 0 <= i < now.len() implies {
                &&& (#[trigger] now[i]).1.wf()
                &&& now[i].1.capacity == capacity_of(now[i].0)
            } by {
                if i != plan.hook {
                    assert(now[i] == before[i]);
                }
            }
        }
    }

    /// Files a program whose load went through: its dispatcher swap, if it
    /// had one, committed, so the hook takes the planned list and the program
    /// is marked attached; then the registry takes the record under `id`.
    pub fn complete_load(&mut self, program: Program, id: u128, plan: Option<HookPlan>) -> (r: Result<u128, BpfdError>)
        requires
            old(self).wf(),
            program.spec_data() is Some,
            insert_refusal(old(self).registry.progs(), old(self).registry.users(), program, id) is None,
            program.hook_known(),
            plan matches Some(p) ==> old(self).fits(p) && hook_key_of(program) == Some(p.key)
                && adds_program(planned_hook_slots(old(self).hooks@, p), p.swap.slots@, id),
            plan is None ==> hook_key_of(program) is None,
        ensures
            final(self).wf(),
            r == Ok::<u128, BpfdError>(id),
            match plan {
                Some(p) => positions_stamped(
                    old(self).registry.progs().insert(id, stamped(attached_form(program), id)),
                    final(self).registry.progs(),
                    slot_ids(p.swap.slots@),
                ),
                None => final(self).registry.progs() == old(self).registry.progs().insert(id, stamped(program, id)),
            },
            final(self).registry.users() == users_after_insert(old(self).registry.users(), owner_of(program), id),
            match plan {
                Some(p) => hooks_after(old(self).hooks@, final(self).hooks@, p),
                None => final(self).hooks@ == old(self).hooks@,
            },
    {
        let ghost h0 = self.hooks@;
        let ghost p0 = self.registry.progs();
        let ghost rec = stamped(if plan is Some { attached_form(program) } else { program }, id);
        let mut program = program;
        let hook = match plan {
            Some(p) => {
                let h = p.hook;
                self.commit_hook(p);
                program.set_attached();
                Some(h)
            },
            None => None,
        };
        let r = self.registry.insert_with_id(program, id);
        let ghost p1 = self.registry.progs();
        proof {
            assert(p1 == p0.insert(id, rec));
            assert(hook_key_of(rec) == hook_key_of(program));
            assert(!p0.contains_key(id));
        }
        match hook {
            Some(h) => {
                let ids = self.hooks[h].1.list();
                proof {
                    self.lemma_slot_ids_distinct(h as int);
                }
                self.registry.stamp_positions(&ids);
                proof {
                    let p = plan->Some_0;
                    let h1 = self.hooks@;
                    let p2 = self.registry.progs();
                    lemma_stamp_keeps_keys(p1, p2, ids@);
                    let planned = planned_hook_slots(h0, p);
                    let (k0, s0) = choose|k: int, s: HookSlot| 0 <= k <= planned.len() && s.id == id
                        && p.swap.slots@ == #[trigger] planned.insert(k, s);
                    assert forall|i: int, k: int| 0 <= i < h1.len() && 0 <= k < h1[i].1.slots@.len() implies {
                        let x = (#[trigger] h1[i].1.slots@[k]).id;
                        &&& p2.contains_key(x)
                        &&& hook_key_of(p2[x]) == Some(h1[i].0)
                    } by {
                        let x = h1[i].1.slots@[k].id;
                        if i != p.hook {
                            assert(h1[i] == h0[i]);
                            assert(p0.contains_key(x));
                        } else if k == k0 {
                            assert(x == id);
                        } else {
                            let kk = if k < k0 { k } else { k - 1 };
                            assert(planned[kk].id == x);
                            assert(h0[p.hook as int].1.slots@[kk].id == x);
                            assert(p0.contains_key(x));
                        }
                    }
                    assert forall|x: u128| #[trigger] p2.contains_key(x) && hook_key_of(p2[x]) is Some
                        implies exists|i: int| 0 <= i < h1.len() && (#[trigger] h1[i]).0 == hook_key_of(p2[x])->Some_0
                            && holds_id(h1[i].1.slots@, x) by {
                        if x == id {
                            assert(h1[p.hook as int].1.slots@[k0].id == id);
                            assert(holds_id(h1[p.hook as int].1.slots@, x));
                        } else {
                            assert(p0.contains_key(x));
                            let i0 = choose|i: int| 0 <= i < h0.len() && (#[trigger] h0[i]).0 == hook_key_of(p0[x])->Some_0
                                && holds_id(h0[i].1.slots@, x);
                            if i0 != p.hook {
                                assert(h1[i0] == h0[i0]);
                                assert(holds_id(h1[i0].1.slots@, x));
                            } else {
                                let j = choose|j: int| 0 <= j < h0[i0].1.slots@.len() && (#[trigger] h0[i0].1.slots@[j]).id == x;
                                let jj = if j < k0 { j } else { j + 1 };
                                assert(h1[i0].1.slots@[jj].id == x);
                                assert(holds_id(h1[i0].1.slots@, x));
                            }
                        }
                    }
                }
            },
            None => {
                proof {
                    let h1 = self.hooks@;
                    assert forall|i: int, k: int| 0 <= i < h1.len() && 0 <= k < h1[i].1.slots@.len() implies {
                        let x = (#[trigger] h1[i].1.slots@[k]).id;
                        &&& p1.contains_key(x)
                        &&& hook_key_of(p1[x]) == Some(h1[i].0)
                    } by {
                        assert(p0.contains_key(h1[i].1.slots@[k].id));
                    }
                    assert forall|x: u128| #[trigger] p1.contains_key(x) && hook_key_of(p1[x]) is Some
                        implies exists|i: int| 0 <= i < h1.len() && (#[trigger] h1[i]).0 == hook_key_of(p1[x])->Some_0
                            && holds_id(h1[i].1.slots@, x) by {
                        assert(p0.contains_key(x));
                    }
                }
            },
        }
        r
    }

    /// The identifiers on a hook's list are distinct.
    proof fn lemma_slot_ids_distinct(&self, h: int)
        requires
            self.table_wf(),
            0 <= h < self.hooks@.len(),
        ensures
            ({
                let ids = slot_ids(self.hooks@[h].1.slots@);
                forall|i: int, j: int| 0 <= i < j < ids.len() ==> ids[i] != ids[j]
            }),
    {
        let s = self.hooks@[h].1.slots@;
        assert(self.hooks@[h].1.wf());
        assert forall|i: int, j: int| 0 <= i < j < slot_ids(s).len() implies slot_ids(s)[i] != slot_ids(s)[j] by {
            assert(s[i].id != s[j].id);
        }
    }

    /// Checks an unload of `id` and works out its dispatcher swap, before
    /// anything is done in the kernel. The registry must hold the program
    /// and no other program may use its maps; a program on a hook then gets
    /// the swap that takes it off.
    pub fn plan_unload(&self, id: u128) -> (r: Result<Option<HookPlan>, BpfdError>)
        requires
            self.wf(),
        ensures
            !self.registry.progs().contains_key(id) ==> r == Err::<Option<HookPlan>, BpfdError>(BpfdError::NotFound(id)),
            self.registry.progs().contains_key(id) && self.registry.users().contains_key(id)
                && self.registry.users()[id].len() > 0 ==> r == Err::<Option<HookPlan>, BpfdError>(BpfdError::InUse(id)),
            r matches Ok(Some(plan)) ==> ({
                let h = self.hooks@[plan.hook as int].1.slots@;
                &&& plan.hook < self.hooks@.len()
                &&& self.fits(plan)
                &&& hook_key_of(self.registry.progs()[id]) == Some(plan.key)
                &&& exists|k: int| 0 <= k < h.len() && h[k].id == id && plan.swap.slots@ == #[trigger] h.remove(k)
            }),
            r == Ok::<Option<HookPlan>, BpfdError>(None) ==> match hook_key_of(self.registry.progs()[id]) {
                Some(key) => forall|i: int| 0 <= i < self.hooks@.len() && (#[trigger] self.hooks@[i]).0 == key
                    ==> !holds_id(self.hooks@[i].1.slots@, id),
                None => true,
            },
            self.registry.progs().contains_key(id) && !(self.registry.users().contains_key(id)
                && self.registry.users()[id].len() > 0) ==> match hook_key_of(self.registry.progs()[id]) {
                    None => r == Ok::<Option<HookPlan>, BpfdError>(None),
                    Some(key) => {
                        &&& ((forall|i: int| 0 <= i < self.hooks@.len() && (#[trigger] self.hooks@[i]).0 == key
                            ==> self.hooks@[i].1.revision < u64::MAX) ==> r is Ok)
                        &&& ((forall|i: int| 0 <= i < self.hooks@.len() && (#[trigger] self.hooks@[i]).0 == key
                            ==> !holds_id(self.hooks@[i].1.slots@, id)) ==> r == Ok::<Option<HookPlan>, BpfdError>(None))
                    },
                },
    {
        match self.registry.check_remove(id) {
            Ok(()) => {},
            Err(e) => {
                return Err(e);
            },
        }
        let key = match self.registry.get(id) {
            Some(Program::Xdp(x)) => match x.if_index {
                Some(i) => DispatcherId::Xdp(DispatcherInfo(i, None)),
                None => {
                    return Ok(None);
                },
            },
            Some(Program::Tc(t)) => match t.if_index {
                Some(i) => DispatcherId::Tc(DispatcherInfo(i, Some(t.direction))),
                None => {
                    return Ok(None);
                },
            },
            _ => {
                return Ok(None);
            },
        };
        match self.hook_index(key) {
            None => Ok(None),
            Some(i) => {
                if self.hooks[i].1.position(id).is_none() {
                    proof {
                        assert forall|j: int| 0 <= j < self.hooks@.len() && (#[trigger] self.hooks@[j]).0 == key
                            implies !holds_id(self.hooks@[j].1.slots@, id) by {
                            if j != i {
                                assert(self.hooks@[i as int].0 != self.hooks@[j].0 || i == j);
                            }
                        }
                    }
                    return Ok(None);
                }
                let swap = self.hooks[i].1.plan_remove(id)?;
                let plan = HookPlan { hook: i, key, swap };
                proof {
                    assert(self.hooks@[i as int].1.wf());
                    let h = self.hooks@[i as int].1.slots@;
                    let k = choose|k: int| 0 <= k < h.len() && h[k].id == id && plan.swap.slots@ == h.remove(k);
                    assert(plan.swap.slots@ == h.remove(k));
                    assert(hook_key_of(self.registry.progs()[id]) == Some(key));
                    assert(self.fits(plan));
                }
                Ok(Some(plan))
            },
        }
    }

    /// Removes a program whose unload went through: its dispatcher swap, if
    /// it had one, committed, so the hook takes the planned list; then the
    /// registry lets the record go and hands it back.
    pub fn complete_unload(&mut self, id: u128, plan: Option<HookPlan>) -> (r: Result<Program, BpfdError>)
        requires
            old(self).wf(),
            old(self).registry.progs().contains_key(id),
            !(old(self).registry.users().contains_key(id) && old(self).registry.users()[id].len() > 0),
            plan matches Some(p) ==> old(self).fits(p) && p.hook < old(self).hooks@.len()
                && hook_key_of(old(self).registry.progs()[id]) == Some(p.key)
                && exists|k: int| 0 <= k < old(self).hooks@[p.hook as int].1.slots@.len()
                    && old(self).hooks@[p.hook as int].1.slots@[k].id == id
                    && p.swap.slots@ == #[trigger] old(self).hooks@[p.hook as int].1.slots@.remove(k),
            plan is None ==> match hook_key_of(old(self).registry.progs()[id]) {
                Some(key) => forall|i: int| 0 <= i < old(self).hooks@.len() && (#[trigger] old(self).hooks@[i]).0 == key
                    ==> !holds_id(old(self).hooks@[i].1.slots@, id),
                None => true,
            },
        ensures
            final(self).wf(),
            r matches Ok(p) && without_users(p) == old(self).registry.progs()[id],
            match plan {
                Some(p) => positions_stamped(old(self).registry.progs().remove(id), final(self).registry.progs(), slot_ids(p.swap.slots@)),
                None => final(self).registry.progs() == old(self).registry.progs().remove(id),
            },
            final(self).registry.users() == users_after_remove(
                old(self).registry.users(),
                owner_of(old(self).registry.progs()[id]),
                id,
            ),
            match plan {
                Some(p) => hooks_after(old(self).hooks@, final(self).hooks@, p),
                None => final(self).hooks@ == old(self).hooks@,
            },
    {
        let ghost h0 = self.hooks@;
        let ghost p0 = self.registry.progs();
        let hook = match plan {
            Some(p) => {
                let h = p.hook;
                self.commit_hook(p);
                Some(h)
            },
            None => None,
        };
        let r = self.registry.remove(id);
        let ghost p1 = self.registry.progs();
        match hook {
            Some(h) => {
                let ids = self.hooks[h].1.list();
                proof {
                    self.lemma_slot_ids_distinct(h as int);
                }
                self.registry.stamp_positions(&ids);
                proof {
                    let p = plan->Some_0;
                    let h1 = self.hooks@;
                    let p2 = self.registry.progs();
                    lemma_stamp_keeps_keys(p1, p2, ids@);
                    let old_slots = h0[p.hook as int].1.slots@;
                    let k0 = choose|k: int| 0 <= k < old_slots.len() && old_slots[k].id == id
                        && p.swap.slots@ == #[trigger] old_slots.remove(k);
                    assert(h0[p.hook as int].1.wf());
                    assert forall|i: int, k: int| 0 <= i < h1.len() && 0 <= k < h1[i].1.slots@.len() implies {
                        let x = (#[trigger] h1[i].1.slots@[k]).id;
                        &&& p2.contains_key(x)
                        &&& hook_key_of(p2[x]) == Some(h1[i].0)
                    } by {
                        let x = h1[i].1.slots@[k].id;
                        if i != p.hook {
                            assert(h1[i] == h0[i]);
                            assert(p0.contains_key(x));
                            if x == id {
                                assert(h0[i].0 == h0[p.hook as int].0);
                            }
                        } else {
                            let kk = if k < k0 { k } else { k + 1 };
                            assert(old_slots[kk].id == x);
                            assert(old_slots[kk].id != old_slots[k0].id);
                            assert(p0.contains_key(x));
                        }
                    }
                    assert forall|x: u128| #[trigger] p2.contains_key(x) && hook_key_of(p2[x]) is Some
                        implies exists|i: int| 0 <= i < h1.len() && (#[trigger] h1[i]).0 == hook_key_of(p2[x])->Some_0
                            && holds_id(h1[i].1.slots@, x) by {
                        assert(p0.contains_key(x) && x != id);
                        let i0 = choose|i: int| 0 <= i < h0.len() && (#[trigger] h0[i]).0 == hook_key_of(p0[x])->Some_0
                            && holds_id(h0[i].1.slots@, x);
                        if i0 != p.hook {
                            assert(h1[i0] == h0[i0]);
                            assert(holds_id(h1[i0].1.slots@, x));
                        } else {
                            let j = choose|j: int| 0 <= j < h0[i0].1.slots@.len() && (#[trigger] h0[i0].1.slots@[j]).id == x;
                            assert(j != k0);
                            let jj = if j < k0 { j } else { j - 1 };
                            assert(h1[i0].1.slots@[jj].id == x);
                            assert(holds_id(h1[i0].1.slots@, x));
                        }
                    }
                }
            },
            None => {
                proof {
                    let h1 = self.hooks@;
                    assert forall|i: int, k: int| 0 <= i < h1.len() && 0 <= k < h1[i].1.slots@.len() implies {
                        let x = (#[trigger] h1[i].1.slots@[k]).id;
                        &&& p1.contains_key(x)
                        &&& hook_key_of(p1[x]) == Some(h1[i].0)
                    } by {
                        let x = h1[i].1.slots@[k].id;
                        assert(p0.contains_key(x));
                        if x == id {
                            assert(holds_id(h0[i].1.slots@, id));
                        }
                    }
                    assert forall|x: u128| #[trigger] p1.contains_key(x) && hook_key_of(p1[x]) is Some
                        implies exists|i: int| 0 <= i < h1.len() && (#[trigger] h1[i]).0 == hook_key_of(p1[x])->Some_0
                            && holds_id(h1[i].1.slots@, x) by {
                        assert(p0.contains_key(x));
                    }
                }
            },
        }
        r
    }

    /// The hook, priority and proceed-on mask a registered program asks
    /// for, when it belongs to a hook.
    fn slot_of(p: &Program) -> (r: Option<(DispatcherId, i32, u32)>)
        ensures
            match r {
                Some((key, _, _)) => hook_key_of(*p) == Some(key),
                None => hook_key_of(*p) is None,
            },
    {
        match p {
            Program::Xdp(x) => match x.if_index {
                Some(i) => Some((DispatcherId::Xdp(DispatcherInfo(i, None)), x.priority, x.proceed_on.mask())),
                None => None,
            },
            Program::Tc(t) => match t.if_index {
                Some(i) => Some((DispatcherId::Tc(DispatcherInfo(i, Some(t.direction))), t.priority, t.proceed_on.mask())),
                None => None,
            },
            _ => None,
        }
    }

    /// Works out the swap that adds program `id` to the hook with `key`.
    fn plan_slot(&self, key: DispatcherId, id: u128, priority: i32, mask: u32) -> (r: Result<HookPlan, BpfdError>)
        requires
            self.table_wf(),
        ensures
            r matches Ok(plan) ==> plan.key == key && self.fits(plan)
                && adds_program(planned_hook_slots(self.hooks@, plan), plan.swap.slots@, id),
    {
        let capacity = match key {
            DispatcherId::Xdp(_) => FAST_PATH_SLOTS,
            DispatcherId::Tc(_) => STEERING_SLOTS,
        };
        match self.hook_index(key) {
            Some(i) => {
                let swap = self.hooks[i].1.plan_add(id, priority, mask)?;
                let plan = HookPlan { hook: i, key, swap };
                proof {
                    assert(self.hooks@[i as int].1.wf());
                    let h = self.hooks@[i as int].1.slots@;
                    let slot = HookSlot { id, priority, arrival: self.hooks@[i as int].1.next_arrival, proceed_on: mask };
                    let k = choose|k: int| 0 <= k <= h.len() && plan.swap.slots@ == h.insert(k, slot);
                    assert(plan.swap.slots@ == h.insert(k, slot));
                    assert(adds_program(planned_hook_slots(self.hooks@, plan), plan.swap.slots@, id));
                }
                Ok(plan)
            },
            None => {
                let fresh = HookState::new(capacity);
                let swap = fresh.plan_add(id, priority, mask)?;
                let plan = HookPlan { hook: self.hooks.len(), key, swap };
                proof {
                    assert(fresh.slots@ =~= Seq::<HookSlot>::empty());
                    assert(fresh.advances_to(plan.swap));
                    let h = Seq::<HookSlot>::empty();
                    let slot = HookSlot { id, priority, arrival: 0, proceed_on: mask };
                    let k = choose|k: int| 0 <= k <= fresh.slots@.len() && plan.swap.slots@ == fresh.slots@.insert(k, slot);
                    assert(plan.swap.slots@ == h.insert(k, slot));
                    assert(adds_program(planned_hook_slots(self.hooks@, plan), plan.swap.slots@, id));
                }
                Ok(plan)
            },
        }
    }

    /// The identifiers the records carry, in order.
    fn record_ids(records: &Vec<Program>) -> (r: Result<Vec<u128>, BpfdError>)
        ensures
            r matches Ok(ids) ==> ids@.len() == records@.len()
                && forall|j: int| 0 <= j < records@.len() ==> #[trigger] ids@[j] == record_id(records@[j]),
    {
        let mut ids: Vec<u128> = Vec::new();
        let mut i: usize = 0;
        while i < records.len()
            invariant
                i <= records@.len(),
                ids@.len() == i,
                forall|j: int| 0 <= j < i ==> #[trigger] ids@[j] == record_id(records@[j]),
            decreases records@.len() - i,
        {
            let id = match records[i].data() {
                Ok(d) => match d.id {
                    Some(id) => id,
                    None => {
                        return Err(BpfdError::Error(String::from_str("record without identifier")));
                    },
                },
                Err(e) => {
                    return Err(e);
                },
            };
            ids.push(id);
            i = i + 1;
        }
        Ok(ids)
    }

    /// Rebuilds the daemon's state from saved records after a restart: the
    /// registry as `Registry::restore` files it, and each hook's list from the
    /// records that belong to it, in priority order (ties in the order of
    /// the records), with every record's position stamped.
    pub fn restore(records: Vec<Program>) -> (r: Result<Manager, BpfdError>)
        ensures
            r matches Ok(m) ==> {
                &&& m.wf()
                &&& forall|x: u128| #[trigger] m.registry.progs().contains_key(x)
                    <==> exists|j: int| 0 <= j < records@.len() && record_id(#[trigger] records@[j]) == x
            },
    {
        let ghost s = records@;
        let ids = Manager::record_ids(&records)?;
        let registry = Registry::restore(records)?;
        let mut m = Manager { registry, hooks: Vec::new() };
        let ghost p0 = m.registry.progs();
        let mut i: usize = 0;
        while i < ids.len()
            invariant
                i <= ids@.len(),
                ids@.len() == s.len(),
                forall|j: int| 0 <= j < s.len() ==> #[trigger] ids@[j] == record_id(s[j]),
                forall|x: u128| #[trigger] p0.contains_key(x) <==> exists|j: int| 0 <= j < s.len() && record_id(#[trigger] s[j]) == x,
                m.table_wf(),
                m.registry.progs() == p0,
                forall|a: int, k: int| 0 <= a < m.hooks@.len() && 0 <= k < m.hooks@[a].1.slots@.len() ==> {
                    let x = (#[trigger] m.hooks@[a].1.slots@[k]).id;
                    &&& p0.contains_key(x)
                    &&& hook_key_of(p0[x]) == Some(m.hooks@[a].0)
                },
                forall|j: int| 0 <= j < i && p0.contains_key(#[trigger] ids@[j]) && hook_key_of(p0[ids@[j]]) is Some
                    ==> exists|a: int| 0 <= a < m.hooks@.len() && (#[trigger] m.hooks@[a]).0 == hook_key_of(p0[ids@[j]])->Some_0
                        && holds_id(m.hooks@[a].1.slots@, ids@[j]),
            decreases ids@.len() - i,
        {
            let id = ids[i];
            let slot = match m.registry.get(id) {
                Some(p) => Manager::slot_of(p),
                None => None,
            };
            proof {
                if p0.contains_key(id) {
                    assert(hook_key_of(p0[id]) == hook_key_of(m.registry.programs@[id]));
                }
            }
            let ghost h0 = m.hooks@;
            match slot {
                Some((key, priority, mask)) => {
                    let plan = m.plan_slot(key, id, priority, mask)?;
                    let ghost p = plan;
                    m.commit_hook(plan);
                    proof {
                        let h1 = m.hooks@;
                        let planned = planned_hook_slots(h0, p);
                        let (k0, s0) = choose|k: int, sl: HookSlot| 0 <= k <= planned.len() && sl.id == id
                            && p.swap.slots@ == #[trigger] planned.insert(k, sl);
                        assert forall|a: int, k: int| 0 <= a < h1.len() && 0 <= k < h1[a].1.slots@.len() implies {
                            let x = (#[trigger] h1[a].1.slots@[k]).id;
                            &&& p0.contains_key(x)
                            &&& hook_key_of(p0[x]) == Some(h1[a].0)
                        } by {
                            if a != p.hook {
                                assert(h1[a] == h0[a]);
                            } else if k == k0 {
                            } else {
                                let kk = if k < k0 { k } else { k - 1 };
                                assert(planned[kk] == h1[a].1.slots@[k]);
                                assert(h0[p.hook as int].1.slots@[kk] == planned[kk]);
                            }
                        }
                        assert forall|j: int| 0 <= j < i + 1 && p0.contains_key(#[trigger] ids@[j]) && hook_key_of(p0[ids@[j]]) is Some
                            implies exists|a: int| 0 <= a < h1.len() && (#[trigger] h1[a]).0 == hook_key_of(p0[ids@[j]])->Some_0
                                && holds_id(h1[a].1.slots@, ids@[j]) by {
                            let x = ids@[j];
                            if x == id {
                                assert(h1[p.hook as int].1.slots@[k0].id == id);
                                assert(holds_id(h1[p.hook as int].1.slots@, x));
                            } else {
                                assert(j < i);
                                let a0 = choose|a: int| 0 <= a < h0.len() && (#[trigger] h0[a]).0 == hook_key_of(p0[x])->Some_0
                                    && holds_id(h0[a].1.slots@, x);
                                if a0 != p.hook {
                                    assert(h1[a0] == h0[a0]);
                                    assert(holds_id(h1[a0].1.slots@, x));
                                } else {
                                    let q = choose|q: int| 0 <= q < h0[a0].1.slots@.len() && (#[trigger] h0[a0].1.slots@[q]).id == x;
                                    let qq = if q < k0 { q } else { q + 1 };
                                    assert(h1[a0].1.slots@[qq].id == x);
                                    assert(holds_id(h1[a0].1.slots@, x));
                                }
                            }
                        }
                    }
                },
                None => {},
            }
            i = i + 1;
        }
        proof {
            assert forall|x: u128| #[trigger] m.registry.progs().contains_key(x) && hook_key_of(m.registry.progs()[x]) is Some
                implies exists|a: int| 0 <= a < m.hooks@.len() && (#[trigger] m.hooks@[a]).0 == hook_key_of(m.registry.progs()[x])->Some_0
                    && holds_id(m.hooks@[a].1.slots@, x) by {
                let j = choose|j: int| 0 <= j < s.len() && record_id(#[trigger] s[j]) == x;
                assert(ids@[j] == x);
            }
        }
        let mut h: usize = 0;
        while h < m.hooks.len()
            invariant
                m.wf(),
                forall|x: u128| #[trigger] m.registry.progs().contains_key(x) <==> p0.contains_key(x),
            decreases m.hooks@.len() - h,
        {
            let list = m.hooks[h].1.list();
            proof {
                m.lemma_slot_ids_distinct(h as int);
            }
            let ghost before = m.registry.progs();
            m.registry.stamp_positions(&list);
            proof {
                let after = m.registry.progs();
                lemma_stamp_keeps_keys(before, after, list@);
                assert forall|a: int, k: int| 0 <= a < m.hooks@.len() && 0 <= k < m.hooks@[a].1.slots@.len() implies {
                    let x = (#[trigger] m.hooks@[a].1.slots@[k]).id;
                    &&& after.contains_key(x)
                    &&& hook_key_of(after[x]) == Some(m.hooks@[a].0)
                } by {
                    assert(before.contains_key(m.hooks@[a].1.slots@[k].id));
                }
                assert forall|x: u128| #[trigger] after.contains_key(x) && hook_key_of(after[x]) is Some
                    implies exists|a: int| 0 <= a < m.hooks@.len() && (#[trigger] m.hooks@[a]).0 == hook_key_of(after[x])->Some_0
                        && holds_id(m.hooks@[a].1.slots@, x) by {
                    assert(before.contains_key(x));
                }
            }
            h = h + 1;
        }
        Ok(m)
    }
}

/// A hook's revision only grows: after a committed swap the hook's revision
/// is above the one it had, and a hook that is new starts above the initial
/// revision 0.
pub proof fn lemma_revision_grows(before: Manager, after: Manager, plan: HookPlan)
    requires
        before.wf(),
        before.fits(plan),
        hooks_after(before.hooks@, after.hooks@, plan),
    ensures
        plan.hook < before.hooks@.len() ==> after.hooks@[plan.hook as int].1.revision > before.hooks@[plan.hook as int].1.revision,
        after.hooks@[plan.hook as int].1.revision > 0,
{
}

/// A hook's list holds exactly the registered programs that belong to that
/// hook: a program is on the list of the hook at `i` if and only if it is
/// registered with that hook's key.
pub proof fn lemma_hook_list_is_registry(m: Manager, i: int, x: u128)
    requires
        m.wf(),
        0 <= i < m.hooks@.len(),
    ensures
        holds_id(m.hooks@[i].1.slots@, x) <==> (m.registry.progs().contains_key(x)
            && hook_key_of(m.registry.progs()[x]) == Some(m.hooks@[i].0)),
{
    if holds_id(m.hooks@[i].1.slots@, x) {
        let k = choose|k: int| 0 <= k < m.hooks@[i].1.slots@.len() && (#[trigger] m.hooks@[i].1.slots@[k]).id == x;
        assert(m.registry.progs().contains_key(m.hooks@[i].1.slots@[k].id));
    }
    if m.registry.progs().contains_key(x) && hook_key_of(m.registry.progs()[x]) == Some(m.hooks@[i].0) {
        let j = choose|j: int| 0 <= j < m.hooks@.len() && (#[trigger] m.hooks@[j]).0 == hook_key_of(m.registry.progs()[x])->Some_0
            && holds_id(m.hooks@[j].1.slots@, x);
        if j != i {
            assert(m.hooks@[i].0 != m.hooks@[j].0);
        }
    }
}

} // verus!
