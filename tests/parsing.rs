use bpfd::direction::Direction;
use bpfd::errors::ParseError;
use bpfd::proceed_on::{TcProceedOn, TcProceedOnEntry, XdpProceedOn, XdpProceedOnEntry};
use bpfd::program_type::ProgramType;

fn strings(v: &[&str]) -> Vec<String> {
    v.iter().map(|s| s.to_string()).collect()
}

#[test]
fn direction_tokens_parse() {
    assert_eq!(Direction::try_from("ingress".to_string()).unwrap(), Direction::Ingress);
    assert_eq!(Direction::try_from("egress".to_string()).unwrap(), Direction::Egress);
}

#[test]
fn direction_unknown_token_is_rejected() {
    match Direction::try_from("sideways".to_string()) {
        Err(ParseError::InvalidDirection { direction }) => assert_eq!(direction, "sideways"),
        other => panic!("unexpected {:?}", other),
    }
}

#[test]
fn direction_short_forms() {
    assert_eq!(Direction::Ingress.fmt(), "in");
    assert_eq!(Direction::Egress.fmt(), "eg");
}

#[test]
fn xdp_default_proceed_on() {
    let p = XdpProceedOn::from_strings(&vec![]).unwrap();
    assert_eq!(p.0, vec![XdpProceedOnEntry::Pass, XdpProceedOnEntry::DispatcherReturn]);
    assert_eq!(p.mask(), (1u32 << 2) | (1u32 << 31));
}

#[test]
fn tc_default_proceed_on() {
    let p = TcProceedOn::from_strings(&vec![]).unwrap();
    assert_eq!(
        p.0,
        vec![TcProceedOnEntry::ActOk, TcProceedOnEntry::Pipe, TcProceedOnEntry::DispatcherReturn]
    );
    assert_eq!(p.mask(), (1u32 << 1) | (1u32 << 4) | (1u32 << 31));
}

#[test]
fn xdp_tokens_in_order() {
    let p = XdpProceedOn::from_strings(&strings(&["drop", "dispatcher_return"])).unwrap();
    assert_eq!(p.0, vec![XdpProceedOnEntry::Drop, XdpProceedOnEntry::DispatcherReturn]);
    assert_eq!(p.mask(), (1u32 << 1) | (1u32 << 31));
}

#[test]
fn tc_tokens_in_order() {
    let p = TcProceedOn::from_strings(&strings(&["shot", "unspec", "trap"])).unwrap();
    assert_eq!(p.0, vec![TcProceedOnEntry::Shot, TcProceedOnEntry::Unspec, TcProceedOnEntry::Trap]);
    assert_eq!(p.mask(), (1u32 << 3) | 1u32 | (1u32 << 9));
}

#[test]
fn unknown_proceed_on_token_is_named() {
    match XdpProceedOn::from_strings(&strings(&["pass", "bogus", "also_bad"])) {
        Err(ParseError::InvalidProceedOn { proceedon }) => assert_eq!(proceedon, "bogus"),
        other => panic!("unexpected {:?}", other),
    }
    match TcProceedOn::from_strings(&strings(&["pass"])) {
        Err(ParseError::InvalidProceedOn { proceedon }) => assert_eq!(proceedon, "pass"),
        other => panic!("unexpected {:?}", other),
    }
}

#[test]
fn program_type_numbers() {
    assert_eq!(ProgramType::try_from(0).unwrap(), ProgramType::Unspec);
    assert_eq!(ProgramType::try_from(2).unwrap(), ProgramType::Probe);
    assert_eq!(ProgramType::try_from(3).unwrap(), ProgramType::Tc);
    assert_eq!(ProgramType::try_from(6).unwrap(), ProgramType::Xdp);
    assert_eq!(ProgramType::try_from(31).unwrap(), ProgramType::Syscall);
    match ProgramType::try_from(32) {
        Err(ParseError::InvalidProgramType { program }) => assert_eq!(program, 32),
        other => panic!("unexpected {:?}", other),
    }
}
