use std::collections::HashMap;

use bpfd::direction::Direction;
use bpfd::errors::BpfdError;
use bpfd::ids::{decimal_text, dispatcher_pin_path, link_pin_path, persisted_paths, program_pin_path, record_path};
use bpfd::listing::list_programs;
use bpfd::proceed_on::{TcProceedOn, XdpProceedOn};
use bpfd::program::{
    BytecodeImage, DispatcherId, DispatcherInfo, ImagePullPolicy, KernelProgramInfo, KprobeProgram, Location,
    Program, ProgramData, TcProgram, XdpProgram,
};
use bpfd::program_type::ProgramType;

fn image_data(name: &str) -> ProgramData {
    let image = BytecodeImage {
        image_url: "quay.io/bpfd-bytecode/pass:latest".to_string(),
        image_pull_policy: ImagePullPolicy::IfNotPresent,
    };
    ProgramData::new(Location::Image(image), name.to_string(), None, HashMap::new(), None)
}

fn kinfo(id: u32, name: &str) -> KernelProgramInfo {
    KernelProgramInfo::try_from(
        id, name.to_string(), 6, "2023-01-01T00:00:00+0000".to_string(), "deadbeef".to_string(), true,
        vec![1, 2], Some(7), 100, 64, 4096, 12,
    )
}

#[test]
fn name_taken_from_image() {
    let mut d = image_data("");
    let bytes = d.program_bytes(vec![1, 2, 3], "do_pass".to_string()).unwrap();
    assert_eq!(bytes, vec![1, 2, 3]);
    assert_eq!(d.name(), "do_pass");
}

#[test]
fn name_mismatch_is_refused() {
    let mut d = image_data("other");
    match d.program_bytes(vec![1], "do_pass".to_string()) {
        Err(BpfdError::BytecodeMetaDataMismatch { image_prog_name, provided_prog_name }) => {
            assert_eq!(image_prog_name, "do_pass");
            assert_eq!(provided_prog_name, "other");
        }
        other => panic!("unexpected {:?}", other),
    }
    assert_eq!(d.name(), "other");
}

#[test]
fn matching_name_is_kept() {
    let mut d = image_data("do_pass");
    assert!(d.program_bytes(vec![], "do_pass".to_string()).is_ok());
    assert_eq!(d.name(), "do_pass");
}

#[test]
fn file_location_keeps_name() {
    let mut d = ProgramData::new(Location::File("/x.o".to_string()), "mine".to_string(), None, HashMap::new(), None);
    assert!(d.program_bytes(vec![9], "".to_string()).is_ok());
    assert_eq!(d.name(), "mine");
}

#[test]
fn kernel_info_fields() {
    let k = kinfo(3, "k");
    assert_eq!(k.btf_id, 7);
    assert!(k.jited);
    let k0 = KernelProgramInfo::try_from(
        3, "k".to_string(), 6, "t".to_string(), "0".to_string(), false, vec![], None, 1, 0, 0, 0,
    );
    assert_eq!(k0.btf_id, 0);
    assert!(!k0.jited);
}

#[test]
fn program_accessors() {
    let mut tc = Program::Tc(TcProgram::new(
        image_data("tc_prog"),
        50,
        "eth0".to_string(),
        TcProceedOn::from_strings(&vec![]).unwrap(),
        Direction::Egress,
    ));
    assert_eq!(tc.kind(), ProgramType::Tc);
    assert_eq!(tc.priority(), Some(50));
    assert_eq!(tc.direction(), Some(Direction::Egress));
    assert_eq!(tc.if_name(), Some("eth0".to_string()));
    assert_eq!(tc.attached(), Some(false));
    tc.set_if_index(4);
    tc.set_attached();
    tc.set_position(Some(2));
    assert_eq!(tc.if_index(), Some(4));
    assert_eq!(tc.attached(), Some(true));
    assert_eq!(tc.dispatcher_id(), Some(DispatcherId::Tc(DispatcherInfo(4, Some(Direction::Egress)))));
    match &tc {
        Program::Tc(p) => assert_eq!(p.current_position, Some(2)),
        _ => unreachable!(),
    }
    let mut xdp = Program::Xdp(XdpProgram::new(image_data("x"), 1, "eth1".to_string(), XdpProceedOn::from_strings(&vec![]).unwrap()));
    xdp.set_if_index(9);
    assert_eq!(xdp.kind(), ProgramType::Xdp);
    assert_eq!(xdp.dispatcher_id(), Some(DispatcherId::Xdp(DispatcherInfo(9, None))));
    assert!(xdp.kernel_info().is_none());
    xdp.data_mut().unwrap().set_kernel_info(Some(kinfo(77, "x")));
    assert_eq!(xdp.kernel_info().unwrap().id, 77);
}

#[test]
fn unsupported_program_has_no_data() {
    let mut p = Program::Unsupported(kinfo(5, "foreign"));
    assert_eq!(p.name(), "foreign");
    assert_eq!(p.kind(), ProgramType::Xdp);
    assert!(matches!(p.data(), Err(BpfdError::Error(_))));
    assert!(p.data_mut().is_err());
    assert!(p.location().is_none());
    assert!(p.dispatcher_id().is_none());
    assert_eq!(p.kernel_info().unwrap().id, 5);
}

#[test]
fn kprobe_kind_is_probe() {
    let data = ProgramData::new(Location::File("/k.o".to_string()), "kp".to_string(), None, HashMap::new(), None);
    let p = Program::Kprobe(KprobeProgram::new(data, "do_sys_open".to_string(), 0, false, None));
    assert_eq!(p.kind(), ProgramType::Probe);
    assert!(p.attached().is_none());
}

#[test]
fn list_merges_unmanaged_kernel_programs() {
    let mut managed = image_data("m");
    managed.set_kernel_info(Some(kinfo(10, "m")));
    let managed = vec![Program::Xdp(XdpProgram::new(managed, 1, "eth0".to_string(), XdpProceedOn::from_strings(&vec![]).unwrap()))];
    let kernel = vec![kinfo(10, "m"), kinfo(11, "a"), kinfo(12, "b")];
    let all = list_programs(managed, kernel);
    assert_eq!(all.len(), 3);
    assert_eq!(all[0].name(), "m");
    assert!(matches!(&all[1], Program::Unsupported(k) if k.id == 11));
    assert!(matches!(&all[2], Program::Unsupported(k) if k.id == 12));
}

#[test]
fn persisted_layout_paths() {
    let id: u128 = 0x67e5504410b1426f9247bb680e5fe0c8;
    assert_eq!(record_path("/run/bpfd/programs", id), "/run/bpfd/programs/67e55044-10b1-426f-9247-bb680e5fe0c8");
    assert_eq!(program_pin_path("/run/bpfd/fs", id), "/run/bpfd/fs/prog_67e55044-10b1-426f-9247-bb680e5fe0c8");
    assert_eq!(link_pin_path("/run/bpfd/fs", id), "/run/bpfd/fs/prog_67e55044-10b1-426f-9247-bb680e5fe0c8_link");
    let all = persisted_paths("p", "f", id);
    assert_eq!(all.len(), 3);
    assert_eq!(all[2], "f/prog_67e55044-10b1-426f-9247-bb680e5fe0c8_link");
}

#[test]
fn decimal_numbers() {
    assert_eq!(decimal_text(0), "0");
    assert_eq!(decimal_text(7), "7");
    assert_eq!(decimal_text(10), "10");
    assert_eq!(decimal_text(4096), "4096");
    assert_eq!(decimal_text(u64::MAX), "18446744073709551615");
}

#[test]
fn dispatcher_paths() {
    assert_eq!(dispatcher_pin_path("/run/bpfd/fs", 3, Some(Direction::Ingress), 12), "/run/bpfd/fs/dispatcher_3_in_12");
    assert_eq!(dispatcher_pin_path("/run/bpfd/fs", 3, Some(Direction::Egress), 1), "/run/bpfd/fs/dispatcher_3_eg_1");
    assert_eq!(dispatcher_pin_path("fs", 15, None, 0), "fs/dispatcher_15_0");
}
