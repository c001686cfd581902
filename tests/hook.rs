use bpfd::errors::BpfdError;
use bpfd::hook::{HookState, KernelOp};

const PASS_MASK: u32 = (1 << 2) | (1 << 31);
const DROP_MASK: u32 = (1 << 1) | (1 << 31);

fn add(h: &mut HookState, id: u128, priority: i32, mask: u32) {
    let plan = h.plan_add(id, priority, mask).unwrap();
    h.commit(plan);
}

#[test]
fn first_program_installs_dispatcher() {
    let h = HookState::new(10);
    let plan = h.plan_add(1, 75, PASS_MASK).unwrap();
    assert_eq!(plan.revision, 1);
    assert_eq!(
        plan.ops,
        vec![
            KernelOp::LoadDispatcher { revision: 1, slots: 1 },
            KernelOp::LoadProgram { id: 1 },
            KernelOp::SetSlot { revision: 1, slot: 0, id: 1, proceed_on: PASS_MASK },
            KernelOp::Attach { revision: 1 },
        ]
    );
    assert_eq!(plan.commit, 3);
}

#[test]
fn proceed_on_cascade_order() {
    let mut h = HookState::new(10);
    add(&mut h, 1, 75, PASS_MASK);
    let plan = h.plan_add(2, 50, DROP_MASK).unwrap();
    assert_eq!(
        plan.ops,
        vec![
            KernelOp::LoadDispatcher { revision: 2, slots: 2 },
            KernelOp::LoadProgram { id: 2 },
            KernelOp::SetSlot { revision: 2, slot: 0, id: 2, proceed_on: DROP_MASK },
            KernelOp::SetSlot { revision: 2, slot: 1, id: 1, proceed_on: PASS_MASK },
            KernelOp::Attach { revision: 2 },
            KernelOp::Detach { revision: 1 },
        ]
    );
    h.commit(plan);
    assert_eq!(h.list(), vec![2, 1]);
    add(&mut h, 3, 50, PASS_MASK);
    assert_eq!(h.list(), vec![2, 3, 1]);
    assert_eq!(h.position(3), Some(1));
    assert_eq!(h.revision, 3);
    let plan = h.plan_remove(2).unwrap();
    assert_eq!(
        plan.ops,
        vec![
            KernelOp::LoadDispatcher { revision: 4, slots: 2 },
            KernelOp::SetSlot { revision: 4, slot: 0, id: 3, proceed_on: PASS_MASK },
            KernelOp::SetSlot { revision: 4, slot: 1, id: 1, proceed_on: PASS_MASK },
            KernelOp::Attach { revision: 4 },
            KernelOp::Detach { revision: 3 },
            KernelOp::UnpinProgram { id: 2 },
        ]
    );
    h.commit(plan);
    assert_eq!(h.list(), vec![3, 1]);
    assert_eq!(h.revision, 4);
}

#[test]
fn equal_priorities_keep_arrival_order() {
    let mut h = HookState::new(10);
    add(&mut h, 10, 5, PASS_MASK);
    add(&mut h, 11, 5, PASS_MASK);
    add(&mut h, 12, 1, PASS_MASK);
    add(&mut h, 13, 5, PASS_MASK);
    assert_eq!(h.list(), vec![12, 10, 11, 13]);
    let plan = h.plan_remove(12).unwrap();
    h.commit(plan);
    assert_eq!(h.list(), vec![10, 11, 13]);
}

#[test]
fn last_removal_detaches_dispatcher() {
    let mut h = HookState::new(10);
    add(&mut h, 7, 1, PASS_MASK);
    let plan = h.plan_remove(7).unwrap();
    assert_eq!(plan.ops, vec![KernelOp::Detach { revision: 1 }, KernelOp::UnpinProgram { id: 7 }]);
    assert_eq!(plan.commit, 0);
    h.commit(plan);
    assert!(h.list().is_empty());
    assert_eq!(h.revision, 2);
    let plan = h.plan_add(8, 1, PASS_MASK).unwrap();
    assert_eq!(plan.ops[0], KernelOp::LoadDispatcher { revision: 3, slots: 1 });
    assert_eq!(plan.ops.len(), 4);
}

#[test]
fn failed_attach_rolls_back() {
    let mut h = HookState::new(10);
    add(&mut h, 1, 75, PASS_MASK);
    let plan = h.plan_add(2, 50, DROP_MASK).unwrap();
    // the attach step (index 4) fails
    assert_eq!(plan.ops[plan.commit], KernelOp::Attach { revision: 2 });
    let undo = plan.rollback(plan.commit);
    assert_eq!(undo, vec![KernelOp::UnpinProgram { id: 2 }, KernelOp::UnpinDispatcher { revision: 2 }]);
    // the hook is untouched since nothing was committed
    assert_eq!(h.list(), vec![1]);
    assert_eq!(h.revision, 1);
}

#[test]
fn failed_load_rolls_back_dispatcher_only() {
    let h = HookState::new(10);
    let plan = h.plan_add(2, 50, DROP_MASK).unwrap();
    assert_eq!(plan.rollback(1), vec![KernelOp::UnpinDispatcher { revision: 1 }]);
    assert_eq!(plan.rollback(0), vec![]);
}

#[test]
fn duplicate_and_missing_ids() {
    let mut h = HookState::new(10);
    add(&mut h, 1, 1, PASS_MASK);
    assert!(matches!(h.plan_add(1, 2, PASS_MASK), Err(BpfdError::AlreadyExists(1))));
    assert!(matches!(h.plan_remove(9), Err(BpfdError::NotFound(9))));
}

#[test]
fn full_hook_refuses_more() {
    let mut h = HookState::new(1);
    add(&mut h, 1, 1, PASS_MASK);
    assert!(matches!(h.plan_add(2, 0, PASS_MASK), Err(BpfdError::TooManyPrograms(2))));
    assert_eq!(h.list(), vec![1]);
}
