//! The modules of the guest: which one an address belongs to, and how the list
//! of a Windows process is read from its memory.
use vstd::prelude::*;
use std::sync::Arc;
use crate::addr_map::{is_floor, AddrMap};
use crate::bytes::{lemma_pow256_values, pow256};
use crate::regs::Register;
use crate::worker::{Module, Worker};

verus! {

/// What a module is.
pub struct ModuleInfo {
    /// The last address of the module.
    pub end: u64,
    pub name: Seq<char>,
}

impl View for Module {
    type V = ModuleInfo;

    open spec fn view(&self) -> ModuleInfo {
        ModuleInfo { end: self.end, name: self.name@ }
    }
}

/// What a list of modules holds, by base address.
pub open spec fn modules_of(list: AddrMap<Module>) -> Map<u64, ModuleInfo> {
    list@.map_values(|m: Module| m@)
}

/// The module at `base` is the last one that starts at or below `addr`, and
/// reaches up to it.
pub open spec fn in_module(modules: Map<u64, ModuleInfo>, addr: u64, base: u64) -> bool {
    is_floor(modules, addr, base) && addr <= modules[base].end
}

/// The module that `addr` belongs to and the offset into it, or no module and
/// the address itself.
pub open spec fn resolved(modules: Map<u64, ModuleInfo>, addr: u64) -> (Option<Seq<char>>, u64) {
    if exists|base: u64| in_module(modules, addr, base) {
        let base = choose|base: u64| in_module(modules, addr, base);
        (Some(modules[base].name), (addr - base) as u64)
    } else {
        (None, addr)
    }
}

impl<C> Worker<C> {
    /// Attempt to resolve the `addr` into a module + offset based on the
    /// current `module_list`.
    pub fn resolve_module(&self, addr: u64) -> (r: (Option<&Arc<String>>, u64))
        requires
            self.module_list.wf(),
        ensures
            r.1 == resolved(modules_of(self.module_list), addr).1,
            match r.0 {
                Some(name) => resolved(modules_of(self.module_list), addr).0 == Some(name@),
                None => resolved(modules_of(self.module_list), addr).0 is None,
            },
    {
        let ghost modules = modules_of(self.module_list);
        match self.module_list.floor(addr) {
            Some((base, module)) => {
                proof {
                    assert forall|b: u64| is_floor(modules, addr, b) implies b == base by {
                        assert(modules.contains_key(b) && modules.contains_key(base));
                        assert(self.module_list@.contains_key(b));
                    }
                    assert(is_floor(modules, addr, base)) by {
                        assert forall|k: u64| #[trigger] modules.contains_key(k) && k
                            <= addr implies k <= base by {
                            assert(self.module_list@.contains_key(k));
                        }
                    }
                    assert(modules[base] == module@);
                    assert(in_module(modules, addr, base) == (addr <= module.end));
                }
                if addr <= module.end {
                    (Some(&module.name), addr - base)
                } else {
                    (None, addr)
                }
            },
            None => {
                proof {
                    assert forall|b: u64| !in_module(modules, addr, b) by {
                        if in_module(modules, addr, b) {
                            assert(self.module_list@.contains_key(b));
                        }
                    }
                }
                (None, addr)
            },
        }
    }
}

/// An address at which a module is loaded resolves to that module, at the
/// distance from its base, if no later module starts at or below the address.
pub proof fn law_resolve_inside(modules: Map<u64, ModuleInfo>, base: u64, addr: u64)
    requires
        modules.contains_key(base),
        base <= addr <= modules[base].end,
        forall|b: u64| #[trigger] modules.contains_key(b) && b <= addr ==> b <= base,
    ensures
        resolved(modules, addr) == (Some(modules[base].name), (addr - base) as u64),
{
    assert(in_module(modules, addr, base));
    let b = choose|b: u64| in_module(modules, addr, b);
    assert(modules.contains_key(b));
}

/// An address that no module reaches up to resolves to itself.
pub proof fn law_resolve_outside(modules: Map<u64, ModuleInfo>, addr: u64)
    requires
        forall|b: u64| #[trigger] modules.contains_key(b) ==> addr < b || addr > modules[b].end,
    ensures
        resolved(modules, addr) == (None::<Seq<char>>, addr),
{
    assert forall|b: u64| !in_module(modules, addr, b) by {
        if in_module(modules, addr, b) {
            assert(modules.contains_key(b));
        }
    }
}

/// The text that UTF-16 code units stand for. Surrogates stand for a character
/// in pairs only.
pub open spec fn utf16_text(units: Seq<u16>) -> Option<Seq<char>>
    decreases units.len(),
{
    if units.len() == 0 {
        Some(Seq::empty())
    } else if units[0] < 0xd800 || units[0] > 0xdfff {
        match utf16_text(units.skip(1)) {
            Some(rest) => Some(seq![units[0] as char] + rest),
            None => None,
        }
    } else if units[0] < 0xdc00 && units.len() >= 2 && 0xdc00 <= units[1] <= 0xdfff {
        let code = 0x10000 + (units[0] - 0xd800) * 0x400 + (units[1] - 0xdc00);
        match utf16_text(units.skip(2)) {
            Some(rest) => Some(seq![code as char] + rest),
            None => None,
        }
    } else {
        None
    }
}

/// `String::from_utf16`, which decodes UTF-16 code units into a string, and
/// fails where they hold an unpaired surrogate.
#[verifier::external_body]
fn string_from_utf16(units: &[u16]) -> (r: Option<String>)
    ensures
        match r {
            Some(text) => utf16_text(units@) == Some(text@),
            None => utf16_text(units@) is None,
        },
{
    String::from_utf16(units).ok()
}

/// A value to read from the memory of the guest.
#[derive(Clone, Copy, PartialEq, Eq, Structural, Debug)]
pub struct ModuleRead {
    pub addr: u64,
    /// How many bytes the value takes up.
    pub width: usize,
}

/// What is being read of the list of modules, and what was read before.
#[derive(Clone, Copy, PartialEq, Eq, Structural, Debug)]
pub enum ModulePhase {
    /// The address of the process environment block, from the thread's block.
    Peb { gs_base: u64 },
    /// The address of the loader data.
    Ldr { peb: u64 },
    /// The first link of the list in load order.
    Flink { ldr: u64 },
    /// The last link of that list.
    Blink { ldr: u64, flink: u64 },
    /// The base of a module.
    Base { flink: u64, blink: u64 },
    /// The size of a module.
    Size { flink: u64, blink: u64, base: u64 },
    /// How many bytes the name of a module takes up.
    NameLen { flink: u64, blink: u64, base: u64, size: u32 },
    /// The address of the name of a module.
    NamePtr { flink: u64, blink: u64, base: u64, size: u32, name_len: u16 },
    /// A code unit of the name of a module.
    Name { flink: u64, blink: u64, base: u64, size: u32, name_len: u16, name_ptr: u64 },
    /// The link to the next module.
    Next { flink: u64, blink: u64 },
}

/// A list of modules that is being read.
pub struct ModuleWalk {
    pub phase: ModulePhase,
    /// The code units of the name that is being read.
    pub name: Vec<u16>,
    /// The modules that were read.
    pub list: AddrMap<Module>,
}

/// How the reading of the list of modules stands.
pub enum ModuleStep {
    /// The reading goes on once the value that the walk asks for was read.
    Read(ModuleWalk),
    /// All modules were read.
    Complete(AddrMap<Module>),
    /// The list cannot be read.
    Failed,
}

/// What a list that is being read is.
pub struct WalkState {
    pub phase: ModulePhase,
    pub name: Seq<u16>,
    pub list: Map<u64, ModuleInfo>,
}

/// What a step in reading a list leads to.
pub enum StepState {
    Read(WalkState),
    Complete(Map<u64, ModuleInfo>),
    Failed,
}

impl View for ModuleWalk {
    type V = WalkState;

    open spec fn view(&self) -> WalkState {
        WalkState { phase: self.phase, name: self.name@, list: modules_of(self.list) }
    }
}

impl View for ModuleStep {
    type V = StepState;

    open spec fn view(&self) -> StepState {
        match *self {
            ModuleStep::Read(walk) => StepState::Read(walk@),
            ModuleStep::Complete(list) => StepState::Complete(modules_of(list)),
            ModuleStep::Failed => StepState::Failed,
        }
    }
}

impl WalkState {
    /// Where the value stands that is being read.
    pub open spec fn addr(self) -> int {
        match self.phase {
            ModulePhase::Peb { gs_base } => gs_base + 0x60,
            ModulePhase::Ldr { peb } => peb + 0x18,
            ModulePhase::Flink { ldr } => ldr + 0x10,
            ModulePhase::Blink { ldr, .. } => ldr + 0x18,
            ModulePhase::Base { flink, .. } => flink + 0x30,
            ModulePhase::Size { flink, .. } => flink + 0x40,
            ModulePhase::NameLen { flink, .. } => flink + 0x58,
            ModulePhase::NamePtr { flink, .. } => flink + 0x60,
            ModulePhase::Name { name_ptr, .. } => name_ptr + 2 * self.name.len(),
            ModulePhase::Next { flink, .. } => flink as int,
        }
    }

    /// How many bytes the value takes up that is being read.
    pub open spec fn width(self) -> nat {
        match self.phase {
            ModulePhase::Size { .. } => 4,
            ModulePhase::NameLen { .. } => 2,
            ModulePhase::Name { .. } => 2,
            _ => 8,
        }
    }

    /// The value that is being read has an address.
    pub open spec fn fits(self) -> bool {
        &&& self.addr() <= u64::MAX
        &&& self.phase matches ModulePhase::Name { size, name_len, .. } ==> size > 0
            && self.name.len() < name_len / 2
        &&& self.phase matches ModulePhase::NameLen { size, .. } ==> size > 0
        &&& self.phase matches ModulePhase::NamePtr { size, .. } ==> size > 0
    }

    /// Reading goes on with another value.
    pub open spec fn go_to(self, phase: ModulePhase) -> StepState {
        StepState::Read(WalkState { phase, name: Seq::empty(), list: self.list })
    }

    /// Reading goes on with the module that `flink` links to, if any.
    pub open spec fn go_to_module(self, flink: u64, blink: u64) -> StepState {
        if flink == 0 {
            StepState::Complete(self.list)
        } else {
            self.go_to(ModulePhase::Base { flink, blink })
        }
    }

    /// Reading goes on with the next code unit of a name.
    pub open spec fn go_to_name(self, phase: ModulePhase, name: Seq<u16>) -> StepState {
        let next = WalkState { phase, name, list: self.list };
        if next.addr() <= u64::MAX {
            StepState::Read(next)
        } else {
            StepState::Failed
        }
    }

    /// A module was read to its end.
    pub open spec fn end_module(
        self,
        flink: u64,
        blink: u64,
        base: u64,
        size: u32,
        name: Seq<u16>,
    ) -> StepState {
        if utf16_text(name) is None || base + size - 1 > u64::MAX {
            StepState::Failed
        } else {
            let info = ModuleInfo { end: (base + size - 1) as u64, name: utf16_text(name)->0 };
            let list = self.list.insert(base, info);
            if flink == blink {
                StepState::Complete(list)
            } else {
                (WalkState { list, ..self }).go_to(ModulePhase::Next { flink, blink })
            }
        }
    }

    /// What the value that was read leads to. Without it the list cannot be read.
    pub open spec fn next(self, value: Option<u64>) -> StepState {
        match value {
            None => StepState::Failed,
            Some(value) => match self.phase {
                ModulePhase::Peb { .. } => self.go_to(ModulePhase::Ldr { peb: value }),
                ModulePhase::Ldr { .. } => self.go_to(ModulePhase::Flink { ldr: value }),
                ModulePhase::Flink { ldr } => self.go_to(ModulePhase::Blink { ldr, flink: value }),
                ModulePhase::Blink { flink, .. } => self.go_to_module(flink, value),
                ModulePhase::Base { flink, blink } => self.go_to(
                    ModulePhase::Size { flink, blink, base: value },
                ),
                ModulePhase::Size { flink, blink, base } => if value == 0 {
                    StepState::Failed
                } else {
                    self.go_to(ModulePhase::NameLen { flink, blink, base, size: value as u32 })
                },
                ModulePhase::NameLen { flink, blink, base, size } => self.go_to(
                    ModulePhase::NamePtr { flink, blink, base, size, name_len: value as u16 },
                ),
                ModulePhase::NamePtr { flink, blink, base, size, name_len } => if value == 0
                    || name_len == 0 || name_len % 2 != 0 {
                    StepState::Failed
                } else {
                    self.go_to_name(
                        ModulePhase::Name { flink, blink, base, size, name_len, name_ptr: value },
                        Seq::empty(),
                    )
                },
                ModulePhase::Name { flink, blink, base, size, name_len, name_ptr } => {
                    let name = self.name.push(value as u16);
                    if name.len() == name_len / 2 {
                        self.end_module(flink, blink, base, size, name)
                    } else {
                        self.go_to_name(self.phase, name)
                    }
                },
                ModulePhase::Next { blink, .. } => self.go_to_module(value, blink),
            },
        }
    }
}

impl ModuleWalk {
    pub open spec fn wf(self) -> bool {
        self.list.wf() && self@.fits()
    }

    /// The value that is being read.
    pub fn request(&self) -> (r: ModuleRead)
        requires
            self.wf(),
        ensures
            r.addr == self@.addr(),
            r.width == self@.width(),
    {
        match self.phase {
            ModulePhase::Peb { gs_base } => ModuleRead { addr: gs_base + 0x60, width: 8 },
            ModulePhase::Ldr { peb } => ModuleRead { addr: peb + 0x18, width: 8 },
            ModulePhase::Flink { ldr } => ModuleRead { addr: ldr + 0x10, width: 8 },
            ModulePhase::Blink { ldr, .. } => ModuleRead { addr: ldr + 0x18, width: 8 },
            ModulePhase::Base { flink, .. } => ModuleRead { addr: flink + 0x30, width: 8 },
            ModulePhase::Size { flink, .. } => ModuleRead { addr: flink + 0x40, width: 4 },
            ModulePhase::NameLen { flink, .. } => ModuleRead { addr: flink + 0x58, width: 2 },
            ModulePhase::NamePtr { flink, .. } => ModuleRead { addr: flink + 0x60, width: 8 },
            ModulePhase::Name { name_ptr, .. } => ModuleRead {
                addr: name_ptr + 2 * (self.name.len() as u64),
                width: 2,
            },
            ModulePhase::Next { flink, .. } => ModuleRead { addr: flink, width: 8 },
        }
    }

    /// The list can be read on from `value`: it is no wider than what was asked
    /// for, and the address of the value that is asked for next can be counted.
    pub open spec fn can_take(self, value: Option<u64>) -> bool {
        &&& value matches Some(v) ==> v < pow256(self@.width())
        &&& self@.next(value) matches StepState::Read(next) ==> next.addr() <= u64::MAX
    }

    /// Whether the list can be read on from `value`.
    pub fn accepts(&self, value: Option<u64>) -> (r: bool)
        requires
            self.wf(),
        ensures
            r == self.can_take(value),
    {
        proof {
            lemma_pow256_values();
        }
        match value {
            None => true,
            Some(v) => match self.phase {
                ModulePhase::Peb { .. } => v <= u64::MAX - 0x18,
                ModulePhase::Ldr { .. } => v <= u64::MAX - 0x10,
                ModulePhase::Flink { ldr } => ldr <= u64::MAX - 0x18,
                ModulePhase::Blink { flink, .. } => flink <= u64::MAX - 0x30,
                ModulePhase::Base { flink, .. } => flink <= u64::MAX - 0x40,
                ModulePhase::Size { flink, .. } => v <= 0xffff_ffff && (v == 0 || flink
                    <= u64::MAX - 0x58),
                ModulePhase::NameLen { flink, .. } => v <= 0xffff && flink <= u64::MAX - 0x60,
                ModulePhase::NamePtr { .. } => true,
                ModulePhase::Name { .. } => v <= 0xffff,
                ModulePhase::Next { .. } => v <= u64::MAX - 0x30,
            },
        }
    }

    /// Goes on with another value.
    fn go_on(self, phase: ModulePhase) -> (r: ModuleStep)
        requires
            self.list.wf(),
        ensures
            r@ == self@.go_to(phase),
            r matches ModuleStep::Read(walk) && walk.list.wf(),
    {
        let walk = ModuleWalk { phase, name: Vec::new(), list: self.list };
        assert(walk@.name =~= Seq::<u16>::empty());
        ModuleStep::Read(walk)
    }

    /// Goes on with the module that `flink` links to, if any.
    fn go_on_module(self, flink: u64, blink: u64) -> (r: ModuleStep)
        requires
            self.list.wf(),
        ensures
            r@ == self@.go_to_module(flink, blink),
            r matches ModuleStep::Read(walk) ==> walk.list.wf(),
            r matches ModuleStep::Complete(list) ==> list.wf(),
    {
        if flink == 0 {
            ModuleStep::Complete(self.list)
        } else {
            self.go_on(ModulePhase::Base { flink, blink })
        }
    }

    /// Ends a module whose name is complete.
    fn finish_module(self, flink: u64, blink: u64, base: u64, size: u32) -> (r: ModuleStep)
        requires
            self.list.wf(),
            size > 0,
        ensures
            r@ == self@.end_module(flink, blink, base, size, self.name@),
            r matches ModuleStep::Read(walk) ==> walk.list.wf(),
            r matches ModuleStep::Complete(list) ==> list.wf(),
    {
        let ghost before = self@;
        match string_from_utf16(self.name.as_slice()) {
            Some(text) => match base.checked_add((size - 1) as u64) {
                Some(end) => {
                    let module = Module { end, name: Arc::new(text) };
                    let ghost info = module@;
                    let mut list = self.list;
                    list.insert(base, module);
                    assert(modules_of(list) =~= before.list.insert(base, info));
                    if flink == blink {
                        ModuleStep::Complete(list)
                    } else {
                        let walk = ModuleWalk { phase: self.phase, name: Vec::new(), list };
                        walk.go_on(ModulePhase::Next { flink, blink })
                    }
                },
                None => ModuleStep::Failed,
            },
            None => ModuleStep::Failed,
        }
    }

    /// Goes on from the value that was asked for. `None` says that it could not
    /// be read.
    pub fn next(self, value: Option<u64>) -> (r: ModuleStep)
        requires
            self.wf(),
            self.can_take(value),
        ensures
            r@ == self@.next(value),
            r matches ModuleStep::Read(walk) ==> walk.wf(),
            r matches ModuleStep::Complete(list) ==> list.wf(),
    {
        proof {
            lemma_pow256_values();
        }
        let value: u64 = match value {
            Some(value) => value,
            None => {
                return ModuleStep::Failed;
            },
        };
        match self.phase {
            ModulePhase::Peb { .. } => self.go_on(ModulePhase::Ldr { peb: value }),
            ModulePhase::Ldr { .. } => self.go_on(ModulePhase::Flink { ldr: value }),
            ModulePhase::Flink { ldr } => self.go_on(ModulePhase::Blink { ldr, flink: value }),
            ModulePhase::Blink { flink, .. } => self.go_on_module(flink, value),
            ModulePhase::Base { flink, blink } => self.go_on(
                ModulePhase::Size { flink, blink, base: value },
            ),
            ModulePhase::Size { flink, blink, base } => {
                if value == 0 {
                    return ModuleStep::Failed;
                }
                self.go_on(ModulePhase::NameLen { flink, blink, base, size: value as u32 })
            },
            ModulePhase::NameLen { flink, blink, base, size } => self.go_on(
                ModulePhase::NamePtr { flink, blink, base, size, name_len: value as u16 },
            ),
            ModulePhase::NamePtr { flink, blink, base, size, name_len } => {
                if value == 0 || name_len == 0 || name_len % 2 != 0 {
                    return ModuleStep::Failed;
                }
                self.go_on(
                    ModulePhase::Name { flink, blink, base, size, name_len, name_ptr: value },
                )
            },
            ModulePhase::Name { flink, blink, base, size, name_len, name_ptr } => {
                let mut walk = self;
                walk.name.push(value as u16);
                let count: usize = walk.name.len();
                if count == (name_len / 2) as usize {
                    walk.finish_module(flink, blink, base, size)
                } else {
                    match name_ptr.checked_add(2 * (count as u64)) {
                        Some(_) => ModuleStep::Read(walk),
                        None => ModuleStep::Failed,
                    }
                }
            },
            ModulePhase::Next { blink, .. } => self.go_on_module(value, blink),
        }
    }
}

/// What happens to the reading of the list of modules.
pub enum ModuleEvent {
    /// The reading starts.
    Start,
    /// The value that `walk` asked for was read, or could not be read.
    Value { walk: ModuleWalk, value: Option<u64> },
}

/// How the reading of the list of modules stands.
pub enum ModuleProgress {
    /// The reading goes on once the value that the walk asks for was read.
    Read(ModuleWalk),
    /// The list was read, and is that of the worker now.
    Complete,
    /// The list cannot be read.
    Failed,
}

impl<C> Worker<C> {
    /// Nothing but the list of modules differs.
    pub open spec fn same_but_modules(self, other: Self) -> bool {
        &&& self.master == other.master
        &&& self.network_mem == other.network_mem
        &&& self.session == other.session
        &&& self.global_context == other.global_context
        &&& self.vm == other.vm
        &&& self.rng == other.rng
        &&& self.fuzz_input == other.fuzz_input
        &&& self.stats == other.stats
        &&& self.sync == other.sync
        &&& self.worker_id == other.worker_id
    }

    /// What a step in reading the list of modules does, and how the reading stands
    /// after it.
    pub open spec fn modules_stepped(
        self,
        after: Self,
        event: ModuleEvent,
        r: ModuleProgress,
    ) -> bool {
        &&& after.same_but_modules(self)
        &&& match event {
            ModuleEvent::Start => {
                &&& after == self
                &&& r matches ModuleProgress::Read(walk) && walk@ == start_state(
                    self.vm.guest_regs@[Register::GsBase],
                )
            },
            ModuleEvent::Value { walk, value } => match walk@.next(value) {
                StepState::Read(next) => {
                    &&& after == self
                    &&& r matches ModuleProgress::Read(walk) && walk@ == next
                },
                StepState::Complete(list) => {
                    &&& r is Complete
                    &&& modules_of(after.module_list) == list
                },
                StepState::Failed => after == self && r is Failed,
            },
        }
    }

    /// Assuming the current process is a Windows 64-bit userland process,
    /// extract the module list from it: goes on from the value of the guest's
    /// memory that was asked for last.
    pub fn get_module_list_win64(&mut self, event: ModuleEvent) -> (r: ModuleProgress)
        requires
            old(self).wf(),
            match event {
                ModuleEvent::Start => old(self).vm.guest_regs@[Register::GsBase] + 0x60 <= u64::MAX,
                ModuleEvent::Value { walk, value } => walk.wf() && walk.can_take(value),
            },
        ensures
            final(self).wf(),
            r matches ModuleProgress::Read(walk) ==> walk.wf(),
            old(self).modules_stepped(*final(self), event, r),
    {
        match event {
            ModuleEvent::Start => {
                let gs_base: u64 = self.vm.reg(Register::GsBase);
                let walk = ModuleWalk {
                    phase: ModulePhase::Peb { gs_base },
                    name: Vec::new(),
                    list: AddrMap::new(),
                };
                assert(walk@.name =~= Seq::<u16>::empty());
                assert(walk@.list =~= Map::<u64, ModuleInfo>::empty());
                ModuleProgress::Read(walk)
            },
            ModuleEvent::Value { walk, value } => match walk.next(value) {
                ModuleStep::Read(walk) => ModuleProgress::Read(walk),
                ModuleStep::Complete(list) => {
                    self.module_list = list;
                    ModuleProgress::Complete
                },
                ModuleStep::Failed => ModuleProgress::Failed,
            },
        }
    }
}

/// The reading of a list of modules as it starts.
pub open spec fn start_state(gs_base: u64) -> WalkState {
    WalkState {
        phase: ModulePhase::Peb { gs_base },
        name: Seq::empty(),
        list: Map::empty(),
    }
}

/// What `steps` steps lead to, if all values are read from the memory `m`.
pub open spec fn run(m: spec_fn(u64, nat) -> Option<u64>, state: StepState, steps: nat) -> StepState
    decreases steps,
{
    if steps == 0 {
        state
    } else {
        match state {
            StepState::Read(walk) => run(
                m,
                walk.next(m(walk.addr() as u64, walk.width())),
                (steps - 1) as nat,
            ),
            _ => state,
        }
    }
}

/// The first `n` code units of the text at `ptr`.
pub open spec fn name_units(m: spec_fn(u64, nat) -> Option<u64>, ptr: u64, n: nat) -> Option<
    Seq<u16>,
>
    decreases n,
{
    if n == 0 {
        Some(Seq::empty())
    } else {
        let at = ptr + 2 * (n - 1);
        match name_units(m, ptr, (n - 1) as nat) {
            Some(units) => if at <= u64::MAX && m(at as u64, 2) is Some {
                Some(units.push(m(at as u64, 2)->0 as u16))
            } else {
                None
            },
            None => None,
        }
    }
}

/// The module whose entry in the loader's list stands at `entry`.
pub open spec fn module_at(m: spec_fn(u64, nat) -> Option<u64>, entry: u64) -> Option<
    (u64, ModuleInfo),
> {
    let base = m((entry + 0x30) as u64, 8);
    let size = m((entry + 0x40) as u64, 4);
    let name_len = m((entry + 0x58) as u64, 2);
    let name_ptr = m((entry + 0x60) as u64, 8);
    if base is None || size is None || name_len is None || name_ptr is None {
        None
    } else {
        let size = size->0 as u32;
        let name_len = name_len->0 as u16;
        let name_ptr = name_ptr->0;
        let end = base->0 + size - 1;
        let units = name_units(m, name_ptr, (name_len / 2) as nat);
        if size == 0 || name_ptr == 0 || name_len == 0 || name_len % 2 != 0 || units is None
            || utf16_text(units->0) is None || end > u64::MAX {
            None
        } else {
            Some(
                (
                    base->0,
                    ModuleInfo { end: end as u64, name: utf16_text(units->0)->0 },
                ),
            )
        }
    }
}

/// The modules of the loader's list from the entry at `flink` to that at `blink`
/// or to the end, besides those of `list`, if there are at most `limit` of them.
/// Fails where an entry cannot be read.
pub open spec fn loader_list(
    m: spec_fn(u64, nat) -> Option<u64>,
    flink: u64,
    blink: u64,
    list: Map<u64, ModuleInfo>,
    limit: nat,
) -> Option<StepState>
    decreases limit,
{
    if flink == 0 {
        Some(StepState::Complete(list))
    } else if limit == 0 {
        None
    } else {
        match module_at(m, flink) {
            None => Some(StepState::Failed),
            Some((base, info)) => if flink == blink {
                Some(StepState::Complete(list.insert(base, info)))
            } else {
                match m(flink, 8) {
                    None => Some(StepState::Failed),
                    Some(next) => loader_list(
                        m,
                        next,
                        blink,
                        list.insert(base, info),
                        (limit - 1) as nat,
                    ),
                }
            },
        }
    }
}

/// The modules of the process whose thread block stands at `gs_base`, if there
/// are at most `limit` of them.
pub open spec fn process_modules(
    m: spec_fn(u64, nat) -> Option<u64>,
    gs_base: u64,
    limit: nat,
) -> Option<StepState> {
    match m((gs_base + 0x60) as u64, 8) {
        None => Some(StepState::Failed),
        Some(peb) => match m((peb + 0x18) as u64, 8) {
            None => Some(StepState::Failed),
            Some(ldr) => {
                let flink = m((ldr + 0x10) as u64, 8);
                let blink = m((ldr + 0x18) as u64, 8);
                if flink is None || blink is None {
                    Some(StepState::Failed)
                } else {
                    loader_list(m, flink->0, blink->0, Map::empty(), limit)
                }
            },
        },
    }
}

/// The memory `m` gives values that are no wider than what is read.
pub open spec fn gives_widths(m: spec_fn(u64, nat) -> Option<u64>) -> bool {
    forall|addr: u64, width: nat| #[trigger]
        m(addr, width) matches Some(value) ==> value < pow256(width)
}

proof fn lemma_run_add(m: spec_fn(u64, nat) -> Option<u64>, state: StepState, a: nat, b: nat)
    ensures
        run(m, state, a + b) == run(m, run(m, state, a), b),
    decreases a,
{
    if a > 0 {
        match state {
            StepState::Read(walk) => {
                let next = walk.next(m(walk.addr() as u64, walk.width()));
                lemma_run_add(m, next, (a - 1) as nat, b);
            },
            _ => {},
        }
    }
}

proof fn lemma_run_over(m: spec_fn(u64, nat) -> Option<u64>, state: StepState, steps: nat)
    requires
        !(state is Read),
    ensures
        run(m, state, steps) == state,
{
}

proof fn lemma_run_step(m: spec_fn(u64, nat) -> Option<u64>, walk: WalkState)
    ensures
        run(m, StepState::Read(walk), 1) == walk.next(m(walk.addr() as u64, walk.width())),
{
    reveal_with_fuel(run, 2);
}

proof fn lemma_no_name(m: spec_fn(u64, nat) -> Option<u64>, ptr: u64, a: nat, b: nat)
    requires
        a <= b,
        name_units(m, ptr, a) is None,
    ensures
        name_units(m, ptr, b) is None,
    decreases b,
{
    if a < b {
        lemma_no_name(m, ptr, a, (b - 1) as nat);
    }
}

/// Reading the rest of a name ends the module.
proof fn lemma_run_name(m: spec_fn(u64, nat) -> Option<u64>, walk: WalkState)
    requires
        walk.phase is Name,
        walk.name.len() < walk.phase->Name_name_len / 2,
        walk.addr() <= u64::MAX,
        name_units(m, walk.phase->Name_name_ptr, walk.name.len()) == Some(walk.name),
    ensures
        ({
            let count = (walk.phase->Name_name_len / 2) as nat;
            let units = name_units(m, walk.phase->Name_name_ptr, count);
            run(m, StepState::Read(walk), (count - walk.name.len()) as nat) == match units {
                Some(units) => walk.end_module(
                    walk.phase->Name_flink,
                    walk.phase->Name_blink,
                    walk.phase->Name_base,
                    walk.phase->Name_size,
                    units,
                ),
                None => StepState::Failed,
            }
        }),
    decreases walk.phase->Name_name_len / 2 - walk.name.len(),
{
    let count = (walk.phase->Name_name_len / 2) as nat;
    let ptr = walk.phase->Name_name_ptr;
    let done = walk.name.len();
    let value = m(walk.addr() as u64, 2);
    match value {
        None => {
            lemma_no_name(m, ptr, done + 1, count);
            lemma_run_over(m, StepState::Failed, (count - done - 1) as nat);
        },
        Some(v) => {
            let name = walk.name.push(v as u16);
            assert(name_units(m, ptr, done + 1) == Some(name));
            if done + 1 < count {
                let next = WalkState { name, ..walk };
                if next.addr() <= u64::MAX {
                    lemma_run_name(m, next);
                } else {
                    lemma_no_name(m, ptr, done + 2, count);
                    lemma_run_over(m, StepState::Failed, (count - done - 1) as nat);
                }
            } else {
                assert(run(m, walk.next(value), 0) == walk.next(value));
            }
        },
    }
}

/// Reading an entry of the loader's list gives its module.
proof fn lemma_run_module(
    m: spec_fn(u64, nat) -> Option<u64>,
    flink: u64,
    blink: u64,
    list: Map<u64, ModuleInfo>,
) -> (steps: nat)
    requires
        gives_widths(m),
    ensures
        ({
            let start = WalkState {
                phase: ModulePhase::Base { flink, blink },
                name: Seq::empty(),
                list,
            };
            run(m, StepState::Read(start), steps) == match module_at(m, flink) {
                None => StepState::Failed,
                Some((base, info)) => if flink == blink {
                    StepState::Complete(list.insert(base, info))
                } else {
                    StepState::Read(
                        WalkState {
                            phase: ModulePhase::Next { flink, blink },
                            name: Seq::empty(),
                            list: list.insert(base, info),
                        },
                    )
                },
            }
        }),
{
    lemma_pow256_values();
    let s0 = WalkState { phase: ModulePhase::Base { flink, blink }, name: Seq::empty(), list };
    let first = StepState::Read(s0);
    let v0 = m((flink + 0x30) as u64, 8);
    lemma_run_step(m, s0);
    if v0 is None {
        1
    } else {
        let base = v0->0;
        let s1 = WalkState { phase: ModulePhase::Size { flink, blink, base }, ..s0 };
        let v1 = m((flink + 0x40) as u64, 4);
        lemma_run_step(m, s1);
        lemma_run_add(m, first, 1, 1);
        if v1 is None || v1->0 == 0 {
            assert(module_at(m, flink) is None);
            2
        } else {
            let size = v1->0 as u32;
            let s2 = WalkState { phase: ModulePhase::NameLen { flink, blink, base, size }, ..s0 };
            let v2 = m((flink + 0x58) as u64, 2);
            lemma_run_step(m, s2);
            lemma_run_add(m, first, 2, 1);
            if v2 is None {
                3
            } else {
                let name_len = v2->0 as u16;
                let s3 = WalkState {
                    phase: ModulePhase::NamePtr { flink, blink, base, size, name_len },
                    ..s0
                };
                let v3 = m((flink + 0x60) as u64, 8);
                lemma_run_step(m, s3);
                lemma_run_add(m, first, 3, 1);
                if v3 is None || v3->0 == 0 || name_len == 0 || name_len % 2 != 0 {
                    assert(module_at(m, flink) is None);
                    4
                } else {
                    let name_ptr = v3->0;
                    let s4 = WalkState {
                        phase: ModulePhase::Name { flink, blink, base, size, name_len, name_ptr },
                        ..s0
                    };
                    let count = (name_len / 2) as nat;
                    lemma_run_name(m, s4);
                    lemma_run_add(m, first, 4, count);
                    4 + count
                }
            }
        }
    }
}

/// Reading the loader's list gives its modules.
proof fn lemma_run_list(
    m: spec_fn(u64, nat) -> Option<u64>,
    flink: u64,
    blink: u64,
    list: Map<u64, ModuleInfo>,
    limit: nat,
) -> (steps: nat)
    requires
        gives_widths(m),
        loader_list(m, flink, blink, list, limit) is Some,
    ensures
        ({
            let start = WalkState { phase: ModulePhase::Peb { gs_base: 0 }, name: Seq::empty(), list };
            run(m, start.go_to_module(flink, blink), steps) == loader_list(
                m,
                flink,
                blink,
                list,
                limit,
            )->0
        }),
    decreases limit,
{
    if flink == 0 {
        0
    } else {
        let start = WalkState {
            phase: ModulePhase::Base { flink, blink },
            name: Seq::empty(),
            list,
        };
        let a = lemma_run_module(m, flink, blink, list);
        match module_at(m, flink) {
            None => a,
            Some((base, info)) => if flink == blink {
                a
            } else {
                let grown = list.insert(base, info);
                let next = WalkState {
                    phase: ModulePhase::Next { flink, blink },
                    name: Seq::empty(),
                    list: grown,
                };
                lemma_run_step(m, next);
                lemma_run_add(m, StepState::Read(start), a, 1);
                match m(flink, 8) {
                    None => a + 1,
                    Some(link) => {
                        let b = lemma_run_list(m, link, blink, grown, (limit - 1) as nat);
                        let empty = WalkState {
                            phase: ModulePhase::Peb { gs_base: 0 },
                            name: Seq::empty(),
                            list: grown,
                        };
                        assert(next.go_to_module(link, blink) == empty.go_to_module(link, blink));
                        lemma_run_add(m, StepState::Read(start), a + 1, b);
                        a + 1 + b
                    },
                }
            },
        }
    }
}

/// If the loader's list of the guest's process is finite, reading it comes to an
/// end, and gives exactly the modules of the list, or fails because an entry of
/// the list cannot be read.
pub proof fn law_module_list(m: spec_fn(u64, nat) -> Option<u64>, gs_base: u64, limit: nat)
    requires
        gives_widths(m),
        process_modules(m, gs_base, limit) is Some,
    ensures
        exists|steps: nat| #[trigger]
            run(m, StepState::Read(start_state(gs_base)), steps) == process_modules(
                m,
                gs_base,
                limit,
            )->0,
{
    let s0 = start_state(gs_base);
    let first = StepState::Read(s0);
    let goal = process_modules(m, gs_base, limit)->0;
    let v0 = m((gs_base + 0x60) as u64, 8);
    lemma_run_step(m, s0);
    if v0 is None {
        assert(run(m, first, 1) == goal);
    } else {
        let peb = v0->0;
        let s1 = WalkState { phase: ModulePhase::Ldr { peb }, ..s0 };
        let v1 = m((peb + 0x18) as u64, 8);
        lemma_run_step(m, s1);
        lemma_run_add(m, first, 1, 1);
        if v1 is None {
            assert(run(m, first, 2) == goal);
        } else {
            let ldr = v1->0;
            let s2 = WalkState { phase: ModulePhase::Flink { ldr }, ..s0 };
            let v2 = m((ldr + 0x10) as u64, 8);
            lemma_run_step(m, s2);
            lemma_run_add(m, first, 2, 1);
            if v2 is None {
                assert(run(m, first, 3) == goal);
            } else {
                let flink = v2->0;
                let s3 = WalkState { phase: ModulePhase::Blink { ldr, flink }, ..s0 };
                let v3 = m((ldr + 0x18) as u64, 8);
                lemma_run_step(m, s3);
                lemma_run_add(m, first, 3, 1);
                if v3 is None {
                    assert(run(m, first, 4) == goal);
                } else {
                    let blink = v3->0;
                    let steps = lemma_run_list(m, flink, blink, Map::empty(), limit);
                    let empty = WalkState { phase: ModulePhase::Peb { gs_base: 0 }, ..s0 };
                    assert(s3.go_to_module(flink, blink) == empty.go_to_module(flink, blink));
                    lemma_run_add(m, first, 4, steps);
                    assert(run(m, first, 4 + steps) == goal);
                }
            }
        }
    }
}

/// An address that lies behind the end of the last module that starts at or below it
/// belongs to no module, even if an earlier one reaches up to it.
pub proof fn law_resolve_behind(modules: Map<u64, ModuleInfo>, base: u64, addr: u64)
    requires
        modules.contains_key(base),
        base <= addr,
        addr > modules[base].end,
        forall|b: u64| #[trigger] modules.contains_key(b) && b <= addr ==> b <= base,
    ensures
        resolved(modules, addr) == (None::<Seq<char>>, addr),
{
    assert forall|b: u64| !in_module(modules, addr, b) by {
        if in_module(modules, addr, b) {
            assert(modules.contains_key(b) && modules.contains_key(base));
        }
    }
}

/// An entry of the loader's list: where it stands, and what it says of a module.
pub struct LoaderEntry {
    pub at: u64,
    pub base: u64,
    pub size: u64,
    pub name_ptr: u64,
    pub units: Seq<u16>,
    pub name: Seq<char>,
}

impl LoaderEntry {
    /// The memory `m` holds the entry, and the entry is one of a module: the module is
    /// not empty and ends within memory, and its name is there and is text.
    pub open spec fn stands_in(self, m: spec_fn(u64, nat) -> Option<u64>) -> bool {
        &&& self.at != 0
        &&& self.at + 0x60 <= u64::MAX
        &&& m((self.at + 0x30) as u64, 8) == Some(self.base)
        &&& m((self.at + 0x40) as u64, 4) == Some(self.size)
        &&& m((self.at + 0x58) as u64, 2) == Some((2 * self.units.len()) as u64)
        &&& m((self.at + 0x60) as u64, 8) == Some(self.name_ptr)
        &&& 0 < self.size < 0x1_0000_0000
        &&& self.base + self.size <= 0x1_0000_0000_0000_0000
        &&& self.name_ptr != 0
        &&& 0 < self.units.len() < 0x8000
        &&& forall|j: int|
            0 <= j < self.units.len() ==> self.name_ptr + 2 * j <= u64::MAX && m(
                (self.name_ptr + 2 * j) as u64,
                2,
            ) == Some(#[trigger] self.units[j] as u64)
        &&& utf16_text(self.units) == Some(self.name)
    }
}

/// The memory `m` holds the entries one linked to the next, from the first one on,
/// none of them being the last one before the end.
pub open spec fn is_linked(m: spec_fn(u64, nat) -> Option<u64>, entries: Seq<LoaderEntry>) -> bool {
    &&& entries.len() > 0
    &&& forall|i: int| 0 <= i < entries.len() ==> (#[trigger] entries[i]).stands_in(m)
    &&& forall|i: int|
        0 <= i < entries.len() - 1 ==> (#[trigger] entries[i]).at != entries.last().at && m(
            entries[i].at,
            8,
        ) == Some(entries[i + 1].at)
}

/// The process whose thread block stands at `gs_base` has a loader's list from
/// `flink` to `blink`.
pub open spec fn has_list(
    m: spec_fn(u64, nat) -> Option<u64>,
    gs_base: u64,
    flink: u64,
    blink: u64,
) -> bool {
    exists|peb: u64, ldr: u64|
        #![trigger m((peb + 0x18) as u64, 8), m((ldr + 0x10) as u64, 8)]
        m((gs_base + 0x60) as u64, 8) == Some(peb) && m((peb + 0x18) as u64, 8) == Some(ldr) && m(
            (ldr + 0x10) as u64,
            8,
        ) == Some(flink) && m((ldr + 0x18) as u64, 8) == Some(blink)
}

proof fn lemma_units(m: spec_fn(u64, nat) -> Option<u64>, e: LoaderEntry, n: nat)
    requires
        e.stands_in(m),
        n <= e.units.len(),
    ensures
        name_units(m, e.name_ptr, n) == Some(e.units.take(n as int)),
    decreases n,
{
    if n == 0 {
        assert(e.units.take(0) =~= Seq::empty());
    } else {
        lemma_units(m, e, (n - 1) as nat);
        let unit = e.units[n - 1];
        assert(m((e.name_ptr + 2 * (n - 1)) as u64, 2) == Some(unit as u64));
        assert((unit as u64) as u16 == unit);
        assert(e.units.take(n as int) =~= e.units.take(n - 1).push(unit));
    }
}

proof fn lemma_entry(m: spec_fn(u64, nat) -> Option<u64>, e: LoaderEntry)
    requires
        e.stands_in(m),
    ensures
        module_at(m, e.at) == Some(
            (e.base, ModuleInfo { end: (e.base + e.size - 1) as u64, name: e.name }),
        ),
{
    let len = (2 * e.units.len()) as u64;
    assert(len as u16 == len);
    assert(e.size as u32 == e.size);
    assert((len as u16) / 2 == e.units.len());
    lemma_units(m, e, e.units.len());
    assert(e.units.take(e.units.len() as int) =~= e.units);
}

/// The modules of the entries from the `k`th on, besides those of `list`.
spec fn with_entries(
    list: Map<u64, ModuleInfo>,
    entries: Seq<LoaderEntry>,
    k: int,
) -> Map<u64, ModuleInfo>
    decreases entries.len() - k,
{
    if k >= entries.len() {
        list
    } else {
        let e = entries[k];
        let info = ModuleInfo { end: (e.base + e.size - 1) as u64, name: e.name };
        with_entries(list.insert(e.base, info), entries, k + 1)
    }
}

proof fn lemma_list(
    m: spec_fn(u64, nat) -> Option<u64>,
    entries: Seq<LoaderEntry>,
    k: int,
    list: Map<u64, ModuleInfo>,
)
    requires
        is_linked(m, entries),
        0 <= k < entries.len(),
    ensures
        loader_list(m, entries[k].at, entries.last().at, list, (entries.len() - k) as nat) == Some(
            StepState::Complete(with_entries(list, entries, k)),
        ),
    decreases entries.len() - k,
{
    let e = entries[k];
    lemma_entry(m, e);
    let info = ModuleInfo { end: (e.base + e.size - 1) as u64, name: e.name };
    if k < entries.len() - 1 {
        assert(entries[k].at != entries.last().at);
        lemma_list(m, entries, k + 1, list.insert(e.base, info));
    } else {
        assert(with_entries(list.insert(e.base, info), entries, k + 1) == list.insert(e.base, info));
    }
}

proof fn lemma_with_entries(list: Map<u64, ModuleInfo>, entries: Seq<LoaderEntry>, k: int, b: u64)
    requires
        0 <= k <= entries.len(),
        forall|i: int|
            0 <= i < entries.len() ==> 0 < (#[trigger] entries[i]).size && entries[i].base
                + entries[i].size <= 0x1_0000_0000_0000_0000,
    ensures
        ({
            let all = with_entries(list, entries, k);
            &&& (forall|i: int| k <= i < entries.len() ==> (#[trigger] entries[i]).base != b) ==> (
            all.contains_key(b) <==> list.contains_key(b)) && all[b] == list[b]
            &&& forall|i: int|
                k <= i < entries.len() && (#[trigger] entries[i]).base == b && (forall|j: int|
                    i < j < entries.len() ==> (#[trigger] entries[j]).base != b)
                    ==> all.contains_key(b) && all[b].end == entries[i].base + entries[i].size - 1
                    && all[b].name == entries[i].name
        }),
    decreases entries.len() - k,
{
    if k < entries.len() {
        let e = entries[k];
        let info = ModuleInfo { end: (e.base + e.size - 1) as u64, name: e.name };
        lemma_with_entries(list.insert(e.base, info), entries, k + 1, b);
    }
}

/// The list is exactly that of the entries: each module is found under its base, with
/// its last address and its name, and of modules with one base the last one counts.
pub open spec fn is_list_of(list: Map<u64, ModuleInfo>, entries: Seq<LoaderEntry>) -> bool {
    &&& forall|i: int|
        0 <= i < entries.len() && (forall|j: int|
            i < j < entries.len() ==> (#[trigger] entries[j]).base != entries[i].base) ==> {
            let e = #[trigger] entries[i];
            &&& list.contains_key(e.base)
            &&& list[e.base].end == e.base + e.size - 1
            &&& list[e.base].name == e.name
        }
    &&& forall|b: u64| #[trigger]
        list.contains_key(b) ==> exists|i: int|
            0 <= i < entries.len() && (#[trigger] entries[i]).base == b
}

proof fn lemma_is_list_of(entries: Seq<LoaderEntry>)
    requires
        forall|i: int|
            0 <= i < entries.len() ==> 0 < (#[trigger] entries[i]).size && entries[i].base
                + entries[i].size <= 0x1_0000_0000_0000_0000,
    ensures
        is_list_of(with_entries(Map::empty(), entries, 0), entries),
{
    let list = with_entries(Map::empty(), entries, 0);
    assert forall|i: int|
        0 <= i < entries.len() && (forall|j: int|
            i < j < entries.len() ==> (#[trigger] entries[j]).base != entries[i].base) implies {
        let e = #[trigger] entries[i];
        &&& list.contains_key(e.base)
        &&& list[e.base].end == e.base + e.size - 1
        &&& list[e.base].name == e.name
    } by {
        lemma_with_entries(Map::empty(), entries, 0, entries[i].base);
    }
    assert forall|b: u64| #[trigger] list.contains_key(b) implies exists|i: int|
        0 <= i < entries.len() && (#[trigger] entries[i]).base == b by {
        lemma_with_entries(Map::empty(), entries, 0, b);
    }
}

/// If the loader's list of the guest's process is a chain of entries that ends with
/// the one that the list names as its last, reading it comes to an end and gives
/// exactly the modules of these entries.
pub proof fn law_linked_list_is_read(
    m: spec_fn(u64, nat) -> Option<u64>,
    gs_base: u64,
    entries: Seq<LoaderEntry>,
)
    requires
        gives_widths(m),
        is_linked(m, entries),
        has_list(m, gs_base, entries[0].at, entries.last().at),
    ensures
        exists|steps: nat|
            (#[trigger] run(m, StepState::Read(start_state(gs_base)), steps)) matches StepState::Complete(
                list,
            ) && is_list_of(list, entries),
{
    let limit = entries.len();
    lemma_list(m, entries, 0, Map::empty());
    assert(process_modules(m, gs_base, limit) == Some(
        StepState::Complete(with_entries(Map::empty(), entries, 0)),
    ));
    law_module_list(m, gs_base, limit);
    assert forall|i: int| 0 <= i < entries.len() implies 0 < (#[trigger] entries[i]).size
        && entries[i].base + entries[i].size <= 0x1_0000_0000_0000_0000 by {
        assert(entries[i].stands_in(m));
    }
    lemma_is_list_of(entries);
    let steps = choose|steps: nat| #[trigger]
        run(m, StepState::Read(start_state(gs_base)), steps) == process_modules(
            m,
            gs_base,
            limit,
        )->0;
    assert(run(m, StepState::Read(start_state(gs_base)), steps) is Complete);
}

/// The memory `m` holds the entries one linked to the next, none of them being the
/// last one of the list, and the last of them linked to `next`.
pub open spec fn leads_to(
    m: spec_fn(u64, nat) -> Option<u64>,
    entries: Seq<LoaderEntry>,
    blink: u64,
    next: u64,
) -> bool {
    forall|i: int|
        0 <= i < entries.len() ==> (#[trigger] entries[i]).stands_in(m) && entries[i].at != blink && m(
            entries[i].at,
            8,
        ) == Some(
            if i + 1 < entries.len() {
                entries[i + 1].at
            } else {
                next
            },
        )
}

proof fn lemma_chain(
    m: spec_fn(u64, nat) -> Option<u64>,
    entries: Seq<LoaderEntry>,
    k: int,
    blink: u64,
    next: u64,
    list: Map<u64, ModuleInfo>,
)
    requires
        leads_to(m, entries, blink, next),
        0 <= k <= entries.len(),
    ensures
        ({
            let start = if k < entries.len() {
                entries[k].at
            } else {
                next
            };
            loader_list(m, start, blink, list, (1 + entries.len() - k) as nat) == loader_list(
                m,
                next,
                blink,
                with_entries(list, entries, k),
                1,
            )
        }),
    decreases entries.len() - k,
{
    if k < entries.len() {
        let e = entries[k];
        assert(e.stands_in(m));
        lemma_entry(m, e);
        let info = ModuleInfo { end: (e.base + e.size - 1) as u64, name: e.name };
        lemma_chain(m, entries, k + 1, blink, next, list.insert(e.base, info));
    }
}

/// If the chain of entries ends with a link to nowhere, reading it comes to an end,
/// too, and gives exactly the modules of the entries before.
pub proof fn law_null_link_ends_the_list(
    m: spec_fn(u64, nat) -> Option<u64>,
    gs_base: u64,
    entries: Seq<LoaderEntry>,
    blink: u64,
)
    requires
        gives_widths(m),
        leads_to(m, entries, blink, 0),
        has_list(
            m,
            gs_base,
            if entries.len() > 0 {
                entries[0].at
            } else {
                0
            },
            blink,
        ),
    ensures
        exists|steps: nat|
            (#[trigger] run(m, StepState::Read(start_state(gs_base)), steps)) matches StepState::Complete(
                list,
            ) && is_list_of(list, entries),
{
    let limit = 1 + entries.len();
    lemma_chain(m, entries, 0, blink, 0, Map::empty());
    assert(process_modules(m, gs_base, limit) == Some(
        StepState::Complete(with_entries(Map::empty(), entries, 0)),
    ));
    law_module_list(m, gs_base, limit);
    assert forall|i: int| 0 <= i < entries.len() implies 0 < (#[trigger] entries[i]).size
        && entries[i].base + entries[i].size <= 0x1_0000_0000_0000_0000 by {
        assert(entries[i].stands_in(m));
    }
    lemma_is_list_of(entries);
    let steps = choose|steps: nat| #[trigger]
        run(m, StepState::Read(start_state(gs_base)), steps) == process_modules(
            m,
            gs_base,
            limit,
        )->0;
    assert(run(m, StepState::Read(start_state(gs_base)), steps) is Complete);
}

/// What stands at `at` is no entry of a module: a part of it cannot be read, or the
/// module is empty, or its name is missing, empty or of an odd length.
pub open spec fn is_broken(m: spec_fn(u64, nat) -> Option<u64>, at: u64) -> bool {
    ||| m((at + 0x30) as u64, 8) is None
    ||| m((at + 0x40) as u64, 4) is None
    ||| m((at + 0x58) as u64, 2) is None
    ||| m((at + 0x60) as u64, 8) is None
    ||| m((at + 0x40) as u64, 4) == Some(0u64)
    ||| m((at + 0x60) as u64, 8) == Some(0u64)
    ||| m((at + 0x58) as u64, 2) == Some(0u64)
    ||| m((at + 0x58) as u64, 2)->0 % 2 == 1
}

/// If the chain of entries comes to something that is no entry, reading it fails.
pub proof fn law_broken_entry_fails(
    m: spec_fn(u64, nat) -> Option<u64>,
    gs_base: u64,
    entries: Seq<LoaderEntry>,
    blink: u64,
    bad: u64,
)
    requires
        gives_widths(m),
        bad != 0,
        is_broken(m, bad),
        leads_to(m, entries, blink, bad),
        has_list(
            m,
            gs_base,
            if entries.len() > 0 {
                entries[0].at
            } else {
                bad
            },
            blink,
        ),
    ensures
        exists|steps: nat| #[trigger]
            run(m, StepState::Read(start_state(gs_base)), steps) == StepState::Failed,
{
    let limit = 1 + entries.len();
    lemma_chain(m, entries, 0, blink, bad, Map::empty());
    assert(module_at(m, bad) is None) by {
        lemma_pow256_values();
        match m((bad + 0x58) as u64, 2) {
            Some(v) => {
                assert(v < 0x1_0000);
                assert(v as u16 == v);
            },
            None => {},
        }
        match m((bad + 0x40) as u64, 4) {
            Some(v) => {
                assert(v < 0x1_0000_0000);
                assert(v as u32 == v);
            },
            None => {},
        }
    }
    assert(process_modules(m, gs_base, limit) == Some(StepState::Failed));
    law_module_list(m, gs_base, limit);
}

/// A step in reading the list of modules of a worker: what it started from, and what
/// it led to.
pub struct ModuleTurn<C> {
    pub worker: Worker<C>,
    pub after: Worker<C>,
    pub event: ModuleEvent,
    pub progress: ModuleProgress,
}

impl<C> ModuleTurn<C> {
    /// `next` is the step after this one, for which the value that was asked for was
    /// read from the memory `m`. In between the list of modules stays as it is.
    pub open spec fn leads_to(self, m: spec_fn(u64, nat) -> Option<u64>, next: Self) -> bool {
        &&& next.worker.module_list == self.after.module_list
        &&& match (self.progress, next.event) {
            (ModuleProgress::Read(asked), ModuleEvent::Value { walk, value }) => {
                &&& walk == asked
                &&& value == m(walk@.addr() as u64, walk@.width())
            },
            _ => false,
        }
    }

    /// What the progress stands for.
    pub open spec fn state(self) -> StepState {
        match self.progress {
            ModuleProgress::Read(walk) => StepState::Read(walk@),
            ModuleProgress::Complete => StepState::Complete(modules_of(self.after.module_list)),
            ModuleProgress::Failed => StepState::Failed,
        }
    }
}

/// The steps in reading the list of modules from the memory `m`, from the first one
/// on.
pub open spec fn is_reading<C>(
    m: spec_fn(u64, nat) -> Option<u64>,
    turns: Seq<ModuleTurn<C>>,
) -> bool {
    &&& turns.len() > 0
    &&& turns[0].event is Start
    &&& forall|i: int|
        0 <= i < turns.len() ==> {
            let t = #[trigger] turns[i];
            t.worker.modules_stepped(t.after, t.event, t.progress)
        }
    &&& forall|i: int| 0 < i < turns.len() ==> turns[i - 1].leads_to(m, #[trigger] turns[i])
}

proof fn lemma_reading<C>(
    m: spec_fn(u64, nat) -> Option<u64>,
    turns: Seq<ModuleTurn<C>>,
    n: int,
)
    requires
        is_reading(m, turns),
        0 <= n < turns.len(),
    ensures
        turns[n].state() == run(
            m,
            StepState::Read(start_state(turns[0].worker.vm.guest_regs@[Register::GsBase])),
            n as nat,
        ),
        !(turns[n].progress is Complete) ==> turns[n].after.module_list == turns[0].worker.module_list,
    decreases n,
{
    let first = StepState::Read(start_state(turns[0].worker.vm.guest_regs@[Register::GsBase]));
    let t = turns[n];
    assert(t.worker.modules_stepped(t.after, t.event, t.progress));
    if n > 0 {
        lemma_reading(m, turns, n - 1);
        let prev = turns[n - 1];
        assert(prev.leads_to(m, t));
        lemma_run_add(m, first, (n - 1) as nat, 1);
        match prev.state() {
            StepState::Read(walk) => {
                lemma_run_step(m, walk);
            },
            _ => {},
        }
    }
}

proof fn lemma_reading_ends<C>(
    m: spec_fn(u64, nat) -> Option<u64>,
    turns: Seq<ModuleTurn<C>>,
    steps: nat,
)
    requires
        is_reading(m, turns),
        turns.last().progress !is Read,
        !(run(
            m,
            StepState::Read(start_state(turns[0].worker.vm.guest_regs@[Register::GsBase])),
            steps,
        ) is Read),
    ensures
        turns.last().state() == run(
            m,
            StepState::Read(start_state(turns[0].worker.vm.guest_regs@[Register::GsBase])),
            steps,
        ),
{
    let first = StepState::Read(start_state(turns[0].worker.vm.guest_regs@[Register::GsBase]));
    let n = (turns.len() - 1) as nat;
    lemma_reading(m, turns, n as int);
    if steps <= n {
        lemma_run_add(m, first, steps, (n - steps) as nat);
        lemma_run_over(m, run(m, first, steps), (n - steps) as nat);
    } else {
        lemma_run_add(m, first, n, (steps - n) as nat);
        lemma_run_over(m, run(m, first, n), (steps - n) as nat);
    }
}

/// A worker that reads the loader's list of its guest to the end has the modules of
/// the list, and no others, whatever modules it had before.
pub proof fn law_worker_gets_modules<C>(
    m: spec_fn(u64, nat) -> Option<u64>,
    turns: Seq<ModuleTurn<C>>,
    entries: Seq<LoaderEntry>,
)
    requires
        gives_widths(m),
        is_reading(m, turns),
        turns.last().progress !is Read,
        is_linked(m, entries),
        has_list(
            m,
            turns[0].worker.vm.guest_regs@[Register::GsBase],
            entries[0].at,
            entries.last().at,
        ),
    ensures
        turns.last().progress is Complete,
        is_list_of(modules_of(turns.last().after.module_list), entries),
{
    let gs_base = turns[0].worker.vm.guest_regs@[Register::GsBase];
    law_linked_list_is_read(m, gs_base, entries);
    let steps = choose|steps: nat|
        (#[trigger] run(m, StepState::Read(start_state(gs_base)), steps)) matches StepState::Complete(
            list,
        ) && is_list_of(list, entries);
    lemma_reading_ends(m, turns, steps);
}

/// A worker that cannot read the loader's list of its guest keeps the modules that it
/// had.
pub proof fn law_worker_keeps_modules<C>(
    m: spec_fn(u64, nat) -> Option<u64>,
    turns: Seq<ModuleTurn<C>>,
    entries: Seq<LoaderEntry>,
    blink: u64,
    bad: u64,
)
    requires
        gives_widths(m),
        is_reading(m, turns),
        turns.last().progress !is Read,
        bad != 0,
        is_broken(m, bad),
        leads_to(m, entries, blink, bad),
        has_list(
            m,
            turns[0].worker.vm.guest_regs@[Register::GsBase],
            if entries.len() > 0 {
                entries[0].at
            } else {
                bad
            },
            blink,
        ),
    ensures
        turns.last().progress is Failed,
        turns.last().after.module_list == turns[0].worker.module_list,
{
    let gs_base = turns[0].worker.vm.guest_regs@[Register::GsBase];
    law_broken_entry_fails(m, gs_base, entries, blink, bad);
    let steps = choose|steps: nat| #[trigger]
        run(m, StepState::Read(start_state(gs_base)), steps) == StepState::Failed;
    lemma_reading_ends(m, turns, steps);
    lemma_reading(m, turns, turns.len() - 1);
}

} // verus!
