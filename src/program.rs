use vstd::prelude::*;
use std::collections::HashMap;
use crate::direction::Direction;
use crate::errors::BpfdError;
use crate::program_type::{ProgramType, PROGRAM_TYPE_COUNT};
use crate::proceed_on::{XdpProceedOn, TcProceedOn};

verus! {

/// When the image store fetches an image again.
#[derive(Debug, Clone, Copy, PartialEq, Eq, Structural)]
pub enum ImagePullPolicy {
    Always,
    IfNotPresent,
    Never,
}

/// A reference to bytecode packaged as a container image.
#[derive(Debug, Clone)]
pub struct BytecodeImage {
    pub image_url: String,
    pub image_pull_policy: ImagePullPolicy,
}

/// Where a program's bytecode comes from.
#[derive(Debug, Clone)]
pub enum Location {
    Image(BytecodeImage),
    File(String),
}

/// What the kernel reports of a loaded program, managed or not.
#[derive(Debug, Clone)]
pub struct KernelProgramInfo {
    pub id: u32,
    pub name: String,
    pub program_type: u32,
    pub loaded_at: String,
    pub tag: String,
    pub gpl_compatible: bool,
    pub map_ids: Vec<u32>,
    pub btf_id: u32,
    pub bytes_xlated: u32,
    pub jited: bool,
    pub bytes_jited: u32,
    pub bytes_memlock: u32,
    pub verified_insns: u32,
}

impl KernelProgramInfo {
    /// Builds the record from the kernel's raw answers: a program without type
    /// information gets type id 0, and it counts as compiled exactly when its
    /// compiled size is not zero.
    pub fn try_from(
        id: u32,
        name: String,
        program_type: u32,
        loaded_at: String,
        tag: String,
        gpl_compatible: bool,
        map_ids: Vec<u32>,
        btf_id: Option<u32>,
        size_translated: u32,
        size_jitted: u32,
        memory_locked: u32,
        verified_instruction_count: u32,
    ) -> (r: KernelProgramInfo)
        ensures
            r.id == id,
            r.name == name,
            r.program_type == program_type,
            r.loaded_at == loaded_at,
            r.tag == tag,
            r.gpl_compatible == gpl_compatible,
            r.map_ids == map_ids,
            r.btf_id == (match btf_id { Some(b) => b, None => 0 }),
            r.bytes_xlated == size_translated,
            r.jited == (size_jitted != 0),
            r.bytes_jited == size_jitted,
            r.bytes_memlock == memory_locked,
            r.verified_insns == verified_instruction_count,
    {
        KernelProgramInfo {
            id,
            name,
            program_type,
            loaded_at,
            tag,
            gpl_compatible,
            map_ids,
            btf_id: match btf_id {
                Some(b) => b,
                None => 0,
            },
            bytes_xlated: size_translated,
            jited: size_jitted != 0,
            bytes_jited: size_jitted,
            bytes_memlock: memory_locked,
            verified_insns: verified_instruction_count,
        }
    }
}

/// The record of a program that this daemon loaded.
#[derive(Debug, Clone)]
pub struct ProgramData {
    // given at load time
    pub name: String,
    pub location: Location,
    pub id: Option<u128>,
    pub global_data: HashMap<String, Vec<u8>>,
    pub map_owner_id: Option<u128>,
    // filled in after load
    pub kernel_info: Option<KernelProgramInfo>,
    pub map_pin_path: Option<String>,
    pub maps_used_by: Option<Vec<u128>>,
}

impl ProgramData {
    pub fn new(
        location: Location,
        name: String,
        id: Option<u128>,
        global_data: HashMap<String, Vec<u8>>,
        map_owner_id: Option<u128>,
    ) -> (r: ProgramData)
        ensures
            r.location == location,
            r.name == name,
            r.id == id,
            r.global_data == global_data,
            r.map_owner_id == map_owner_id,
            r.kernel_info is None,
            r.map_pin_path is None,
            r.maps_used_by is None,
    {
        ProgramData {
            name,
            location,
            id,
            global_data,
            map_owner_id,
            kernel_info: None,
            map_pin_path: None,
            maps_used_by: None,
        }
    }

    pub fn name(&self) -> (r: &str)
        ensures
            r@ == self.name@,
    {
        self.name.as_str()
    }

    pub fn id(&self) -> (r: Option<u128>)
        ensures
            r == self.id,
    {
        self.id
    }

    pub fn set_id(&mut self, id: Option<u128>)
        ensures
            *final(self) == (ProgramData { id, ..*old(self) }),
    {
        self.id = id;
    }

    pub fn set_kernel_info(&mut self, info: Option<KernelProgramInfo>)
        ensures
            *final(self) == (ProgramData { kernel_info: info, ..*old(self) }),
    {
        self.kernel_info = info;
    }

    pub fn kernel_info(&self) -> (r: Option<&KernelProgramInfo>)
        ensures
            r is Some == self.kernel_info is Some,
            r matches Some(k) ==> *k == self.kernel_info->Some_0,
    {
        self.kernel_info.as_ref()
    }

    pub fn global_data(&self) -> (r: &HashMap<String, Vec<u8>>)
        ensures
            *r == self.global_data,
    {
        &self.global_data
    }

    pub fn set_map_pin_path(&mut self, path: Option<String>)
        ensures
            *final(self) == (ProgramData { map_pin_path: path, ..*old(self) }),
    {
        self.map_pin_path = path;
    }

    pub fn map_pin_path(&self) -> (r: Option<&String>)
        ensures
            r is Some == self.map_pin_path is Some,
            r matches Some(p) ==> *p == self.map_pin_path->Some_0,
    {
        self.map_pin_path.as_ref()
    }

    pub fn map_owner_id(&self) -> (r: Option<u128>)
        ensures
            r == self.map_owner_id,
    {
        self.map_owner_id
    }

    pub fn set_maps_used_by(&mut self, used_by: Option<Vec<u128>>)
        ensures
            *final(self) == (ProgramData { maps_used_by: used_by, ..*old(self) }),
    {
        self.maps_used_by = used_by;
    }

    pub fn maps_used_by(&self) -> (r: Option<&Vec<u128>>)
        ensures
            r is Some == self.maps_used_by is Some,
            r matches Some(u) ==> *u == self.maps_used_by->Some_0,
    {
        self.maps_used_by.as_ref()
    }

    /// Takes fetched bytecode and the program name that came with it. From an
    /// image, an empty requested name becomes the image's name, and a
    /// non-empty one must equal it; from a file, the name stays as given.
    pub fn program_bytes(&mut self, bytes: Vec<u8>, embedded_name: String) -> (r: Result<Vec<u8>, BpfdError>)
        ensures
            match old(self).location {
                Location::File(_) => r == Ok::<Vec<u8>, BpfdError>(bytes) && *final(self) == *old(self),
                Location::Image(_) => if old(self).name@.len() == 0 {
                    r == Ok::<Vec<u8>, BpfdError>(bytes) && *final(self) == (ProgramData { name: embedded_name, ..*old(self) })
                } else if old(self).name@ == embedded_name@ {
                    r == Ok::<Vec<u8>, BpfdError>(bytes) && *final(self) == *old(self)
                } else {
                    *final(self) == *old(self) && (r matches Err(BpfdError::BytecodeMetaDataMismatch {
                        image_prog_name,
                        provided_prog_name,
                    }) && image_prog_name == embedded_name && provided_prog_name == old(self).name)
                },
            },
    {
        match self.location {
            Location::Image(_) => {
                if self.name.as_str().is_empty() {
                    self.name = embedded_name;
                } else if self.name != embedded_name {
                    let provided = self.name.clone();
                    return Err(BpfdError::BytecodeMetaDataMismatch {
                        image_prog_name: embedded_name,
                        provided_prog_name: provided,
                    });
                }
            },
            Location::File(_) => {},
        }
        Ok(bytes)
    }
}

/// A fast-path program; it shares the hook's dispatcher with the other
/// fast-path programs of its interface.
#[derive(Debug, Clone)]
pub struct XdpProgram {
    pub data: ProgramData,
    // given at load time
    pub priority: i32,
    pub iface: String,
    pub proceed_on: XdpProceedOn,
    // filled in after load; the position is not persisted
    pub current_position: Option<usize>,
    pub if_index: Option<u32>,
    pub attached: bool,
}

impl XdpProgram {
    pub fn new(data: ProgramData, priority: i32, iface: String, proceed_on: XdpProceedOn) -> (r: XdpProgram)
        ensures
            r == (XdpProgram { data, priority, iface, proceed_on, current_position: None, if_index: None, attached: false }),
    {
        XdpProgram { data, priority, iface, proceed_on, current_position: None, if_index: None, attached: false }
    }
}

/// A steering program, inbound or outbound.
#[derive(Debug, Clone)]
pub struct TcProgram {
    pub data: ProgramData,
    // given at load time
    pub priority: i32,
    pub iface: String,
    pub proceed_on: TcProceedOn,
    pub direction: Direction,
    // filled in after load; the position is not persisted
    pub current_position: Option<usize>,
    pub if_index: Option<u32>,
    pub attached: bool,
}

impl TcProgram {
    pub fn new(
        data: ProgramData,
        priority: i32,
        iface: String,
        proceed_on: TcProceedOn,
        direction: Direction,
    ) -> (r: TcProgram)
        ensures
            r == (TcProgram {
                data, priority, iface, proceed_on, direction, current_position: None, if_index: None, attached: false,
            }),
    {
        TcProgram { data, priority, iface, proceed_on, direction, current_position: None, if_index: None, attached: false }
    }
}

/// A program attached to a kernel tracepoint.
#[derive(Debug, Clone)]
pub struct TracepointProgram {
    pub data: ProgramData,
    pub tracepoint: String,
}

impl TracepointProgram {
    pub fn new(data: ProgramData, tracepoint: String) -> (r: TracepointProgram)
        ensures
            r == (TracepointProgram { data, tracepoint }),
    {
        TracepointProgram { data, tracepoint }
    }
}

/// A program attached to a kernel function entry or return.
#[derive(Debug, Clone)]
pub struct KprobeProgram {
    pub data: ProgramData,
    pub fn_name: String,
    pub offset: u64,
    pub retprobe: bool,
    pub namespace: Option<String>,
}

impl KprobeProgram {
    pub fn new(
        data: ProgramData,
        fn_name: String,
        offset: u64,
        retprobe: bool,
        namespace: Option<String>,
    ) -> (r: KprobeProgram)
        ensures
            r == (KprobeProgram { data, fn_name, offset, retprobe, namespace }),
    {
        KprobeProgram { data, fn_name, offset, retprobe, namespace }
    }
}

/// A program attached to a user-space function entry or return.
#[derive(Debug, Clone)]
pub struct UprobeProgram {
    pub data: ProgramData,
    pub fn_name: Option<String>,
    pub offset: u64,
    pub target: String,
    pub retprobe: bool,
    pub pid: Option<i32>,
    pub namespace: Option<String>,
}

impl UprobeProgram {
    pub fn new(
        data: ProgramData,
        fn_name: Option<String>,
        offset: u64,
        target: String,
        retprobe: bool,
        pid: Option<i32>,
        namespace: Option<String>,
    ) -> (r: UprobeProgram)
        ensures
            r == (UprobeProgram { data, fn_name, offset, target, retprobe, pid, namespace }),
    {
        UprobeProgram { data, fn_name, offset, target, retprobe, pid, namespace }
    }
}

/// The hook a dispatching program belongs to: its interface index, and for
/// steering programs its direction.
#[derive(Debug, Clone, Copy, PartialEq, Eq, Structural)]
pub struct DispatcherInfo(pub u32, pub Option<Direction>);

/// The dispatcher a program runs behind, by hook kind.
#[derive(Debug, Clone, Copy, PartialEq, Eq, Structural)]
pub enum DispatcherId {
    Xdp(DispatcherInfo),
    Tc(DispatcherInfo),
}

/// A program known to the daemon: one it manages, of one of the supported
/// kinds, or one it only found in the kernel.
#[derive(Debug, Clone)]
pub enum Program {
    Xdp(XdpProgram),
    Tc(TcProgram),
    Tracepoint(TracepointProgram),
    Kprobe(KprobeProgram),
    Uprobe(UprobeProgram),
    Unsupported(KernelProgramInfo),
}

impl Program {
    /// The managed record, for every kind but one found only in the kernel.
    pub open spec fn spec_data(self) -> Option<ProgramData> {
        match self {
            Program::Xdp(p) => Some(p.data),
            Program::Tc(p) => Some(p.data),
            Program::Tracepoint(p) => Some(p.data),
            Program::Kprobe(p) => Some(p.data),
            Program::Uprobe(p) => Some(p.data),
            Program::Unsupported(_) => None,
        }
    }

    /// This program with its managed record replaced.
    pub open spec fn with_data(self, d: ProgramData) -> Program {
        match self {
            Program::Xdp(p) => Program::Xdp(XdpProgram { data: d, ..p }),
            Program::Tc(p) => Program::Tc(TcProgram { data: d, ..p }),
            Program::Tracepoint(p) => Program::Tracepoint(TracepointProgram { data: d, ..p }),
            Program::Kprobe(p) => Program::Kprobe(KprobeProgram { data: d, ..p }),
            Program::Uprobe(p) => Program::Uprobe(UprobeProgram { data: d, ..p }),
            Program::Unsupported(i) => Program::Unsupported(i),
        }
    }

    /// Whether the kernel type of a program found there is one it defines.
    pub open spec fn kind_known(self) -> bool {
        self matches Program::Unsupported(i) ==> i.program_type < PROGRAM_TYPE_COUNT
    }

    pub fn kind(&self) -> (r: ProgramType)
        requires
            self.kind_known(),
        ensures
            match *self {
                Program::Xdp(_) => r == ProgramType::Xdp,
                Program::Tc(_) => r == ProgramType::Tc,
                Program::Tracepoint(_) => r == ProgramType::Tracepoint,
                Program::Kprobe(_) => r == ProgramType::Probe,
                Program::Uprobe(_) => r == ProgramType::Probe,
                Program::Unsupported(i) => r.code() == i.program_type,
            },
    {
        match self {
            Program::Xdp(_) => ProgramType::Xdp,
            Program::Tc(_) => ProgramType::Tc,
            Program::Tracepoint(_) => ProgramType::Tracepoint,
            Program::Kprobe(_) => ProgramType::Probe,
            Program::Uprobe(_) => ProgramType::Probe,
            Program::Unsupported(i) => match ProgramType::try_from(i.program_type) {
                Ok(t) => t,
                Err(_) => ProgramType::Unspec,
            },
        }
    }

    /// Whether a dispatching program knows its interface index.
    pub open spec fn hook_known(self) -> bool {
        &&& (self matches Program::Xdp(p) ==> p.if_index is Some)
        &&& (self matches Program::Tc(p) ==> p.if_index is Some)
    }

    /// The dispatcher this program runs behind; none for kinds that do not dispatch.
    pub fn dispatcher_id(&self) -> (r: Option<DispatcherId>)
        requires
            self.hook_known(),
        ensures
            r == (match *self {
                Program::Xdp(p) => Some(DispatcherId::Xdp(DispatcherInfo(p.if_index->Some_0, None))),
                Program::Tc(p) => Some(DispatcherId::Tc(DispatcherInfo(p.if_index->Some_0, Some(p.direction)))),
                _ => None,
            }),
    {
        match self {
            Program::Xdp(p) => match p.if_index {
                Some(i) => Some(DispatcherId::Xdp(DispatcherInfo(i, None))),
                None => None,
            },
            Program::Tc(p) => match p.if_index {
                Some(i) => Some(DispatcherId::Tc(DispatcherInfo(i, Some(p.direction)))),
                None => None,
            },
            _ => None,
        }
    }

    pub fn data(&self) -> (r: Result<&ProgramData, BpfdError>)
        ensures
            match self.spec_data() {
                Some(d) => r matches Ok(x) && *x == d,
                None => r matches Err(BpfdError::Error(m)) && m@ == "Unsupported program type has no ProgramData"@,
            },
    {
        match self {
            Program::Xdp(p) => Ok(&p.data),
            Program::Tracepoint(p) => Ok(&p.data),
            Program::Tc(p) => Ok(&p.data),
            Program::Kprobe(p) => Ok(&p.data),
            Program::Uprobe(p) => Ok(&p.data),
            Program::Unsupported(_) => Err(BpfdError::Error(String::from_str("Unsupported program type has no ProgramData"))),
        }
    }

    pub fn data_mut(&mut self) -> (r: Result<&mut ProgramData, BpfdError>)
        ensures
            old(self).spec_data() is None ==> (r matches Err(BpfdError::Error(m)) && m@ == "Unsupported program type has no ProgramData"@) && *final(self) == *old(self),
            old(self).spec_data() is Some ==> (r matches Ok(d) && *d == old(self).spec_data()->Some_0
                && *final(self) == old(self).with_data(*final(d))),
    {
        match self {
            Program::Xdp(p) => Ok(&mut p.data),
            Program::Tracepoint(p) => Ok(&mut p.data),
            Program::Tc(p) => Ok(&mut p.data),
            Program::Kprobe(p) => Ok(&mut p.data),
            Program::Uprobe(p) => Ok(&mut p.data),
            Program::Unsupported(_) => Err(BpfdError::Error(String::from_str("Unsupported program type has no ProgramData"))),
        }
    }

    pub fn attached(&self) -> (r: Option<bool>)
        ensures
            r == (match *self {
                Program::Xdp(p) => Some(p.attached),
                Program::Tc(p) => Some(p.attached),
                _ => None,
            }),
    {
        match self {
            Program::Xdp(p) => Some(p.attached),
            Program::Tc(p) => Some(p.attached),
            _ => None,
        }
    }

    pub fn set_attached(&mut self)
        ensures
            *final(self) == (match *old(self) {
                Program::Xdp(p) => Program::Xdp(XdpProgram { attached: true, ..p }),
                Program::Tc(p) => Program::Tc(TcProgram { attached: true, ..p }),
                other => other,
            }),
    {
        match self {
            Program::Xdp(p) => p.attached = true,
            Program::Tc(p) => p.attached = true,
            _ => {},
        }
    }

    pub fn set_position(&mut self, pos: Option<usize>)
        ensures
            *final(self) == (match *old(self) {
                Program::Xdp(p) => Program::Xdp(XdpProgram { current_position: pos, ..p }),
                Program::Tc(p) => Program::Tc(TcProgram { current_position: pos, ..p }),
                other => other,
            }),
    {
        match self {
            Program::Xdp(p) => p.current_position = pos,
            Program::Tc(p) => p.current_position = pos,
            _ => {},
        }
    }

    pub fn kernel_info(&self) -> (r: Option<&KernelProgramInfo>)
        ensures
            match *self {
                Program::Unsupported(i) => r matches Some(x) && *x == i,
                _ => (r is Some == self.spec_data()->Some_0.kernel_info is Some)
                    && (r matches Some(x) ==> *x == self.spec_data()->Some_0.kernel_info->Some_0),
            },
    {
        match self {
            Program::Xdp(p) => p.data.kernel_info.as_ref(),
            Program::Tc(p) => p.data.kernel_info.as_ref(),
            Program::Tracepoint(p) => p.data.kernel_info.as_ref(),
            Program::Kprobe(p) => p.data.kernel_info.as_ref(),
            Program::Uprobe(p) => p.data.kernel_info.as_ref(),
            Program::Unsupported(p) => Some(p),
        }
    }

    pub fn if_index(&self) -> (r: Option<u32>)
        ensures
            r == (match *self {
                Program::Xdp(p) => p.if_index,
                Program::Tc(p) => p.if_index,
                _ => None,
            }),
    {
        match self {
            Program::Xdp(p) => p.if_index,
            Program::Tc(p) => p.if_index,
            _ => None,
        }
    }

    pub fn set_if_index(&mut self, if_index: u32)
        ensures
            *final(self) == (match *old(self) {
                Program::Xdp(p) => Program::Xdp(XdpProgram { if_index: Some(if_index), ..p }),
                Program::Tc(p) => Program::Tc(TcProgram { if_index: Some(if_index), ..p }),
                other => other,
            }),
    {
        match self {
            Program::Xdp(p) => p.if_index = Some(if_index),
            Program::Tc(p) => p.if_index = Some(if_index),
            _ => {},
        }
    }

    pub fn if_name(&self) -> (r: Option<String>)
        ensures
            match *self {
                Program::Xdp(p) => r matches Some(n) && n@ == p.iface@,
                Program::Tc(p) => r matches Some(n) && n@ == p.iface@,
                _ => r is None,
            },
    {
        match self {
            Program::Xdp(p) => Some(p.iface.clone()),
            Program::Tc(p) => Some(p.iface.clone()),
            _ => None,
        }
    }

    pub fn priority(&self) -> (r: Option<i32>)
        ensures
            r == (match *self {
                Program::Xdp(p) => Some(p.priority),
                Program::Tc(p) => Some(p.priority),
                _ => None,
            }),
    {
        match self {
            Program::Xdp(p) => Some(p.priority),
            Program::Tc(p) => Some(p.priority),
            _ => None,
        }
    }

    pub fn location(&self) -> (r: Option<&Location>)
        ensures
            match self.spec_data() {
                Some(d) => r matches Some(l) && *l == d.location,
                None => r is None,
            },
    {
        match self {
            Program::Xdp(p) => Some(&p.data.location),
            Program::Tracepoint(p) => Some(&p.data.location),
            Program::Tc(p) => Some(&p.data.location),
            Program::Kprobe(p) => Some(&p.data.location),
            Program::Uprobe(p) => Some(&p.data.location),
            Program::Unsupported(_) => None,
        }
    }

    pub fn direction(&self) -> (r: Option<Direction>)
        ensures
            r == (match *self {
                Program::Tc(p) => Some(p.direction),
                _ => None,
            }),
    {
        match self {
            Program::Tc(p) => Some(p.direction),
            _ => None,
        }
    }

    /// The program's name: the managed record's, or the kernel's for a
    /// program found only there.
    pub open spec fn spec_name(self) -> Seq<char> {
        match self {
            Program::Unsupported(k) => k.name@,
            _ => self.spec_data()->Some_0.name@,
        }
    }

    pub fn name(&self) -> (r: &str)
        ensures
            r@ == self.spec_name(),
    {
        match self {
            Program::Xdp(p) => p.data.name.as_str(),
            Program::Tracepoint(p) => p.data.name.as_str(),
            Program::Tc(p) => p.data.name.as_str(),
            Program::Kprobe(p) => p.data.name.as_str(),
            Program::Uprobe(p) => p.data.name.as_str(),
            Program::Unsupported(k) => k.name.as_str(),
        }
    }
}

/// The programs that share one owner's pinned maps.
#[derive(Debug, Clone)]
pub struct BpfMap {
    pub used_by: Vec<u128>,
}

} // verus!
