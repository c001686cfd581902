use std::collections::HashMap;

use bpfd::direction::Direction;
use bpfd::errors::BpfdError;
use bpfd::hook::KernelOp;
use bpfd::manager::Manager;
use bpfd::proceed_on::{TcProceedOn, XdpProceedOn};
use bpfd::program::{DispatcherId, DispatcherInfo, Location, Program, ProgramData, TcProgram, TracepointProgram, XdpProgram};

fn tc(name: &str, priority: i32, direction: Direction, tokens: &[&str]) -> Program {
    let data = ProgramData::new(Location::File("/x.o".to_string()), name.to_string(), None, HashMap::new(), None);
    let tokens: Vec<String> = tokens.iter().map(|s| s.to_string()).collect();
    let mut p = Program::Tc(TcProgram::new(data, priority, "eth0".to_string(), TcProceedOn::from_strings(&tokens).unwrap(), direction));
    p.set_if_index(2);
    p
}

fn load(m: &mut Manager, p: Program, id: u128) {
    let plan = m.plan_load(&p, id).unwrap();
    m.complete_load(p, id, plan).unwrap();
}

#[test]
fn outbound_hooks_are_independent_of_inbound() {
    let mut m = Manager::new();
    load(&mut m, tc("q1", 75, Direction::Egress, &[]), 1);
    load(&mut m, tc("q2", 50, Direction::Egress, &["shot", "dispatcher_return"]), 2);
    load(&mut m, tc("p1", 75, Direction::Ingress, &[]), 3);
    let eg = DispatcherId::Tc(DispatcherInfo(2, Some(Direction::Egress)));
    let ing = DispatcherId::Tc(DispatcherInfo(2, Some(Direction::Ingress)));
    assert_eq!(m.position(eg, 2), Some(0));
    assert_eq!(m.position(eg, 1), Some(1));
    assert_eq!(m.position(ing, 3), Some(0));
    assert_eq!(m.position(ing, 1), None);
    assert_eq!(m.hooks.len(), 2);
    assert_eq!(m.registry.get(1).unwrap().attached(), Some(true));
}

#[test]
fn unload_plans_the_shorter_list() {
    let mut m = Manager::new();
    load(&mut m, tc("a", 10, Direction::Ingress, &[]), 1);
    load(&mut m, tc("b", 20, Direction::Ingress, &[]), 2);
    let plan = m.plan_unload(1).unwrap().unwrap();
    assert_eq!(plan.swap.ops.last(), Some(&KernelOp::UnpinProgram { id: 1 }));
    let removed = m.complete_unload(1, Some(plan)).unwrap();
    assert_eq!(removed.name(), "a");
    let ing = DispatcherId::Tc(DispatcherInfo(2, Some(Direction::Ingress)));
    assert_eq!(m.position(ing, 2), Some(0));
    assert!(matches!(m.plan_unload(1), Err(BpfdError::NotFound(1))));
}

#[test]
fn non_dispatching_program_needs_no_swap() {
    let mut m = Manager::new();
    let data = ProgramData::new(Location::File("/t.o".to_string()), "t".to_string(), None, HashMap::new(), None);
    let p = Program::Tracepoint(TracepointProgram::new(data, "sched/sched_switch".to_string()));
    let plan = m.plan_load(&p, 4).unwrap();
    assert!(plan.is_none());
    assert_eq!(m.complete_load(p, 4, plan).unwrap(), 4);
    assert!(m.plan_unload(4).unwrap().is_none());
    assert!(m.complete_unload(4, None).is_ok());
}

#[test]
fn duplicate_load_is_refused_before_any_swap() {
    let mut m = Manager::new();
    load(&mut m, tc("a", 10, Direction::Ingress, &[]), 1);
    assert!(matches!(m.plan_load(&tc("b", 10, Direction::Ingress, &[]), 1), Err(BpfdError::AlreadyExists(1))));
}

fn position_of(m: &Manager, id: u128) -> Option<usize> {
    match m.registry.get(id).unwrap() {
        Program::Tc(p) => p.current_position,
        _ => None,
    }
}

#[test]
fn proceed_on_cascade_positions() {
    let mut m = Manager::new();
    load(&mut m, tc("p1", 75, Direction::Ingress, &[]), 1);
    assert_eq!(position_of(&m, 1), Some(0));
    load(&mut m, tc("p2", 50, Direction::Ingress, &["shot", "dispatcher_return"]), 2);
    load(&mut m, tc("p3", 50, Direction::Ingress, &["ok", "dispatcher_return"]), 3);
    assert_eq!(position_of(&m, 2), Some(0));
    assert_eq!(position_of(&m, 3), Some(1));
    assert_eq!(position_of(&m, 1), Some(2));
    let plan = m.plan_unload(2).unwrap();
    m.complete_unload(2, plan).unwrap();
    assert_eq!(position_of(&m, 3), Some(0));
    assert_eq!(position_of(&m, 1), Some(1));
}

#[test]
fn full_fast_path_hook_refuses_second_program() {
    let mut m = Manager::new();
    let mk = |name: &str| {
        let data = ProgramData::new(Location::File("/x.o".to_string()), name.to_string(), None, HashMap::new(), None);
        let mut p = Program::Xdp(XdpProgram::new(data, 1, "eth0".to_string(), XdpProceedOn::from_strings(&vec![]).unwrap()));
        p.set_if_index(3);
        p
    };
    load(&mut m, mk("a"), 1);
    assert!(matches!(m.plan_load(&mk("b"), 2), Err(BpfdError::TooManyPrograms(2))));
}

#[test]
fn restart_recomputes_positions() {
    let mut m = Manager::new();
    load(&mut m, tc("p1", 75, Direction::Ingress, &[]), 1);
    load(&mut m, tc("p2", 50, Direction::Ingress, &["shot", "dispatcher_return"]), 2);
    let saved: Vec<Program> = m.registry.programs.values().cloned().collect();
    let back = Manager::restore(saved).unwrap();
    assert_eq!(position_of(&back, 2), Some(0));
    assert_eq!(position_of(&back, 1), Some(1));
    let ing = DispatcherId::Tc(DispatcherInfo(2, Some(Direction::Ingress)));
    assert_eq!(back.position(ing, 2), Some(0));
    assert_eq!(back.position(ing, 1), Some(1));
    assert_eq!(back.registry.get(1).unwrap().name(), "p1");
}
