use std::collections::HashMap;

use bpfd::errors::BpfdError;
use bpfd::program::{Location, Program, ProgramData, TracepointProgram};
use bpfd::registry::Registry;

fn tracepoint(name: &str, id: Option<u128>, owner: Option<u128>) -> Program {
    let data = ProgramData::new(Location::File("/tmp/prog.o".to_string()), name.to_string(), id, HashMap::new(), owner);
    Program::Tracepoint(TracepointProgram::new(data, "syscalls/sys_enter_openat".to_string()))
}

#[test]
fn map_sharing_scenario() {
    let mut r = Registry::new();
    assert_eq!(r.insert_with_id(tracepoint("r1", None, None), 1).unwrap(), 1);
    assert_eq!(r.insert_with_id(tracepoint("r2", None, Some(1)), 2).unwrap(), 2);
    assert_eq!(r.map_users(1).unwrap().used_by, vec![2]);
    assert!(r.map_users(2).is_none());
    assert!(matches!(r.remove(1), Err(BpfdError::InUse(1))));
    assert!(r.contains(1));
    let p2 = r.remove(2).unwrap();
    assert_eq!(p2.name(), "r2");
    assert_eq!(p2.data().unwrap().id(), Some(2));
    assert!(r.map_users(1).unwrap().used_by.is_empty());
    assert!(r.remove(1).is_ok());
    assert!(!r.contains(1));
}

#[test]
fn second_unload_is_not_found() {
    let mut r = Registry::new();
    r.insert_with_id(tracepoint("p", None, None), 5).unwrap();
    assert!(r.remove(5).is_ok());
    assert!(matches!(r.remove(5), Err(BpfdError::NotFound(5))));
}

#[test]
fn load_then_unload_restores() {
    let mut r = Registry::new();
    r.insert_with_id(tracepoint("owner", None, None), 1).unwrap();
    r.insert_with_id(tracepoint("user", None, Some(1)), 2).unwrap();
    r.insert_with_id(tracepoint("late", None, Some(1)), 3).unwrap();
    assert_eq!(r.map_users(1).unwrap().used_by, vec![2, 3]);
    r.remove(3).unwrap();
    assert_eq!(r.map_users(1).unwrap().used_by, vec![2]);
    assert!(!r.contains(3));
    assert!(r.contains(1) && r.contains(2));
}

#[test]
fn bad_owner_is_refused() {
    let mut r = Registry::new();
    r.insert_with_id(tracepoint("owner", None, None), 1).unwrap();
    r.insert_with_id(tracepoint("user", None, Some(1)), 2).unwrap();
    assert!(matches!(r.insert_with_id(tracepoint("x", None, Some(99)), 3), Err(BpfdError::NotFound(99))));
    assert!(matches!(r.insert_with_id(tracepoint("x", None, Some(2)), 3), Err(BpfdError::NotMapOwner(2))));
    assert!(matches!(r.insert_with_id(tracepoint("x", None, None), 2), Err(BpfdError::AlreadyExists(2))));
    assert!(!r.contains(3));
}

#[test]
fn check_insert_agrees_with_insert() {
    let mut r = Registry::new();
    r.insert_with_id(tracepoint("owner", None, None), 1).unwrap();
    assert!(r.check_insert(&tracepoint("u", None, Some(1)), 2).is_ok());
    assert!(matches!(r.check_insert(&tracepoint("u", None, None), 1), Err(BpfdError::AlreadyExists(1))));
    assert!(matches!(r.check_remove(7), Err(BpfdError::NotFound(7))));
    assert!(r.check_remove(1).is_ok());
}

#[test]
fn insert_uses_given_or_fresh_id() {
    let mut r = Registry::new();
    assert_eq!(r.insert(tracepoint("given", Some(42), None)).unwrap(), 42);
    let id = r.insert(tracepoint("fresh", None, None)).unwrap();
    assert_ne!(id, 42);
    assert_eq!((id >> 76) & 0xf, 4);
    assert_eq!((id >> 62) & 0x3, 2);
    assert_eq!(r.get(id).unwrap().data().unwrap().id(), Some(id));
}

#[test]
fn unsupported_program_is_not_filed() {
    let mut r = Registry::new();
    let info = bpfd::program::KernelProgramInfo::try_from(
        9, "k".to_string(), 6, "t".to_string(), "ab".to_string(), true, vec![], None, 1, 0, 4096, 3,
    );
    assert!(matches!(r.insert_with_id(Program::Unsupported(info), 1), Err(BpfdError::Error(_))));
}

#[test]
fn restore_rebuilds_saved_registry() {
    let mut r = Registry::new();
    r.insert_with_id(tracepoint("owner", None, None), 1).unwrap();
    r.insert_with_id(tracepoint("user_a", None, Some(1)), 2).unwrap();
    r.insert_with_id(tracepoint("user_b", None, Some(1)), 3).unwrap();
    r.insert_with_id(tracepoint("alone", None, None), 4).unwrap();
    // users first, so the owner has to be filed before them
    let mut saved: Vec<Program> = r.programs.values().cloned().collect();
    saved.reverse();
    let back = Registry::restore(saved).unwrap();
    for id in 1..=4u128 {
        assert_eq!(back.get(id).unwrap().name(), r.get(id).unwrap().name());
    }
    let mut users = back.map_users(1).unwrap().used_by.clone();
    users.sort();
    assert_eq!(users, vec![2, 3]);
    assert!(back.map_users(4).unwrap().used_by.is_empty());
    assert!(back.map_users(2).is_none());
}

#[test]
fn restore_refuses_unfileable_records() {
    let orphan = vec![tracepoint("user", Some(2), Some(1))];
    assert!(matches!(Registry::restore(orphan), Err(BpfdError::NotFound(1))));
    let twice = vec![tracepoint("a", Some(1), None), tracepoint("b", Some(1), None)];
    assert!(matches!(Registry::restore(twice), Err(BpfdError::AlreadyExists(1))));
    let unnamed = vec![tracepoint("a", None, None)];
    assert!(matches!(Registry::restore(unnamed), Err(BpfdError::Error(_))));
}

#[test]
fn owner_record_lists_its_map_users() {
    let mut r = Registry::new();
    r.insert_with_id(tracepoint("r1", None, None), 1).unwrap();
    assert_eq!(r.get(1).unwrap().data().unwrap().maps_used_by(), Some(&vec![]));
    r.insert_with_id(tracepoint("r2", None, Some(1)), 2).unwrap();
    assert_eq!(r.get(1).unwrap().data().unwrap().maps_used_by(), Some(&vec![2]));
    assert_eq!(r.get(2).unwrap().data().unwrap().maps_used_by(), None);
    assert!(matches!(r.remove(1), Err(BpfdError::InUse(1))));
    r.remove(2).unwrap();
    assert_eq!(r.get(1).unwrap().data().unwrap().maps_used_by(), Some(&vec![]));
    assert!(r.remove(1).is_ok());
}
