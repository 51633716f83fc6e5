//! The register state of a guest.
use vstd::prelude::*;

verus! {

/// The registers that a snapshot holds.
#[derive(Clone, Copy, PartialEq, Eq, Structural, Debug)]
pub enum Register {
    Rax,
    Rbx,
    Rcx,
    Rdx,
    Rsi,
    Rdi,
    Rsp,
    Rbp,
    R8,
    R9,
    R10,
    R11,
    R12,
    R13,
    R14,
    R15,
    Rip,
    Rflags,
    Cs,
    CsLimit,
    CsAccessRights,
    CsBase,
    Ds,
    DsLimit,
    DsAccessRights,
    DsBase,
    Es,
    EsLimit,
    EsAccessRights,
    EsBase,
    Fs,
    FsLimit,
    FsAccessRights,
    FsBase,
    Gs,
    GsLimit,
    GsAccessRights,
    GsBase,
    Ss,
    SsLimit,
    SsAccessRights,
    SsBase,
    Ldtr,
    LdtrLimit,
    LdtrAccessRights,
    LdtrBase,
    Tr,
    TrLimit,
    TrAccessRights,
    TrBase,
    GdtrLimit,
    GdtrBase,
    IdtrLimit,
    IdtrBase,
    Cr0,
    Cr2,
    Cr3,
    Cr4,
    KernelGsBase,
    Cr8,
    CStar,
    LStar,
    FMask,
    Star,
    SysenterCs,
    SysenterEsp,
    SysenterEip,
    Efer,
    Dr7,
}

/// How many registers there are.
pub const NUM_REGISTERS: usize = 69;

/// The size of the area in which `fxsave` keeps the floating-point state.
pub const FXSAVE_SIZE: usize = 512;

impl Register {
    /// The place of a register in a register file.
    pub open spec fn place(self) -> int {
        match self {
            Register::Rax => 0,
            Register::Rbx => 1,
            Register::Rcx => 2,
            Register::Rdx => 3,
            Register::Rsi => 4,
            Register::Rdi => 5,
            Register::Rsp => 6,
            Register::Rbp => 7,
            Register::R8 => 8,
            Register::R9 => 9,
            Register::R10 => 10,
            Register::R11 => 11,
            Register::R12 => 12,
            Register::R13 => 13,
            Register::R14 => 14,
            Register::R15 => 15,
            Register::Rip => 16,
            Register::Rflags => 17,
            Register::Cs => 18,
            Register::CsLimit => 19,
            Register::CsAccessRights => 20,
            Register::CsBase => 21,
            Register::Ds => 22,
            Register::DsLimit => 23,
            Register::DsAccessRights => 24,
            Register::DsBase => 25,
            Register::Es => 26,
            Register::EsLimit => 27,
            Register::EsAccessRights => 28,
            Register::EsBase => 29,
            Register::Fs => 30,
            Register::FsLimit => 31,
            Register::FsAccessRights => 32,
            Register::FsBase => 33,
            Register::Gs => 34,
            Register::GsLimit => 35,
            Register::GsAccessRights => 36,
            Register::GsBase => 37,
            Register::Ss => 38,
            Register::SsLimit => 39,
            Register::SsAccessRights => 40,
            Register::SsBase => 41,
            Register::Ldtr => 42,
            Register::LdtrLimit => 43,
            Register::LdtrAccessRights => 44,
            Register::LdtrBase => 45,
            Register::Tr => 46,
            Register::TrLimit => 47,
            Register::TrAccessRights => 48,
            Register::TrBase => 49,
            Register::GdtrLimit => 50,
            Register::GdtrBase => 51,
            Register::IdtrLimit => 52,
            Register::IdtrBase => 53,
            Register::Cr0 => 54,
            Register::Cr2 => 55,
            Register::Cr3 => 56,
            Register::Cr4 => 57,
            Register::KernelGsBase => 58,
            Register::Cr8 => 59,
            Register::CStar => 60,
            Register::LStar => 61,
            Register::FMask => 62,
            Register::Star => 63,
            Register::SysenterCs => 64,
            Register::SysenterEsp => 65,
            Register::SysenterEip => 66,
            Register::Efer => 67,
            Register::Dr7 => 68,
        }
    }

    /// The register at a place.
    pub open spec fn at_place(i: int) -> Register {
        if i == 0 {
            Register::Rax
        } else if i == 1 {
            Register::Rbx
        } else if i == 2 {
            Register::Rcx
        } else if i == 3 {
            Register::Rdx
        } else if i == 4 {
            Register::Rsi
        } else if i == 5 {
            Register::Rdi
        } else if i == 6 {
            Register::Rsp
        } else if i == 7 {
            Register::Rbp
        } else if i == 8 {
            Register::R8
        } else if i == 9 {
            Register::R9
        } else if i == 10 {
            Register::R10
        } else if i == 11 {
            Register::R11
        } else if i == 12 {
            Register::R12
        } else if i == 13 {
            Register::R13
        } else if i == 14 {
            Register::R14
        } else if i == 15 {
            Register::R15
        } else if i == 16 {
            Register::Rip
        } else if i == 17 {
            Register::Rflags
        } else if i == 18 {
            Register::Cs
        } else if i == 19 {
            Register::CsLimit
        } else if i == 20 {
            Register::CsAccessRights
        } else if i == 21 {
            Register::CsBase
        } else if i == 22 {
            Register::Ds
        } else if i == 23 {
            Register::DsLimit
        } else if i == 24 {
            Register::DsAccessRights
        } else if i == 25 {
            Register::DsBase
        } else if i == 26 {
            Register::Es
        } else if i == 27 {
            Register::EsLimit
        } else if i == 28 {
            Register::EsAccessRights
        } else if i == 29 {
            Register::EsBase
        } else if i == 30 {
            Register::Fs
        } else if i == 31 {
            Register::FsLimit
        } else if i == 32 {
            Register::FsAccessRights
        } else if i == 33 {
            Register::FsBase
        } else if i == 34 {
            Register::Gs
        } else if i == 35 {
            Register::GsLimit
        } else if i == 36 {
            Register::GsAccessRights
        } else if i == 37 {
            Register::GsBase
        } else if i == 38 {
            Register::Ss
        } else if i == 39 {
            Register::SsLimit
        } else if i == 40 {
            Register::SsAccessRights
        } else if i == 41 {
            Register::SsBase
        } else if i == 42 {
            Register::Ldtr
        } else if i == 43 {
            Register::LdtrLimit
        } else if i == 44 {
            Register::LdtrAccessRights
        } else if i == 45 {
            Register::LdtrBase
        } else if i == 46 {
            Register::Tr
        } else if i == 47 {
            Register::TrLimit
        } else if i == 48 {
            Register::TrAccessRights
        } else if i == 49 {
            Register::TrBase
        } else if i == 50 {
            Register::GdtrLimit
        } else if i == 51 {
            Register::GdtrBase
        } else if i == 52 {
            Register::IdtrLimit
        } else if i == 53 {
            Register::IdtrBase
        } else if i == 54 {
            Register::Cr0
        } else if i == 55 {
            Register::Cr2
        } else if i == 56 {
            Register::Cr3
        } else if i == 57 {
            Register::Cr4
        } else if i == 58 {
            Register::KernelGsBase
        } else if i == 59 {
            Register::Cr8
        } else if i == 60 {
            Register::CStar
        } else if i == 61 {
            Register::LStar
        } else if i == 62 {
            Register::FMask
        } else if i == 63 {
            Register::Star
        } else if i == 64 {
            Register::SysenterCs
        } else if i == 65 {
            Register::SysenterEsp
        } else if i == 66 {
            Register::SysenterEip
        } else if i == 67 {
            Register::Efer
        } else {
            Register::Dr7
        }
    }

    /// Different registers have different places.
    pub proof fn lemma_place(self)
        ensures
            0 <= self.place() < NUM_REGISTERS,
            Register::at_place(self.place()) == self,
    {
    }

    /// Where the register stands in a register file.
    pub fn index(self) -> (r: usize)
        ensures
            r == self.place(),
            r < NUM_REGISTERS,
    {
        match self {
            Register::Rax => 0,
            Register::Rbx => 1,
            Register::Rcx => 2,
            Register::Rdx => 3,
            Register::Rsi => 4,
            Register::Rdi => 5,
            Register::Rsp => 6,
            Register::Rbp => 7,
            Register::R8 => 8,
            Register::R9 => 9,
            Register::R10 => 10,
            Register::R11 => 11,
            Register::R12 => 12,
            Register::R13 => 13,
            Register::R14 => 14,
            Register::R15 => 15,
            Register::Rip => 16,
            Register::Rflags => 17,
            Register::Cs => 18,
            Register::CsLimit => 19,
            Register::CsAccessRights => 20,
            Register::CsBase => 21,
            Register::Ds => 22,
            Register::DsLimit => 23,
            Register::DsAccessRights => 24,
            Register::DsBase => 25,
            Register::Es => 26,
            Register::EsLimit => 27,
            Register::EsAccessRights => 28,
            Register::EsBase => 29,
            Register::Fs => 30,
            Register::FsLimit => 31,
            Register::FsAccessRights => 32,
            Register::FsBase => 33,
            Register::Gs => 34,
            Register::GsLimit => 35,
            Register::GsAccessRights => 36,
            Register::GsBase => 37,
            Register::Ss => 38,
            Register::SsLimit => 39,
            Register::SsAccessRights => 40,
            Register::SsBase => 41,
            Register::Ldtr => 42,
            Register::LdtrLimit => 43,
            Register::LdtrAccessRights => 44,
            Register::LdtrBase => 45,
            Register::Tr => 46,
            Register::TrLimit => 47,
            Register::TrAccessRights => 48,
            Register::TrBase => 49,
            Register::GdtrLimit => 50,
            Register::GdtrBase => 51,
            Register::IdtrLimit => 52,
            Register::IdtrBase => 53,
            Register::Cr0 => 54,
            Register::Cr2 => 55,
            Register::Cr3 => 56,
            Register::Cr4 => 57,
            Register::KernelGsBase => 58,
            Register::Cr8 => 59,
            Register::CStar => 60,
            Register::LStar => 61,
            Register::FMask => 62,
            Register::Star => 63,
            Register::SysenterCs => 64,
            Register::SysenterEsp => 65,
            Register::SysenterEip => 66,
            Register::Efer => 67,
            Register::Dr7 => 68,
        }
    }
}

/// The state that `fxsave` stores and `fxrstor` loads.
#[derive(Clone, Copy)]
pub struct FxSave {
    pub bytes: [u8; FXSAVE_SIZE],
}

/// All registers of a guest.
#[derive(Clone, Copy)]
pub struct GuestRegs {
    pub values: [u64; NUM_REGISTERS],
    pub fxsave: FxSave,
}

impl View for GuestRegs {
    type V = Map<Register, u64>;

    /// The value of every register.
    open spec fn view(&self) -> Map<Register, u64> {
        Map::total(|r: Register| self.values@[r.place()])
    }
}

impl GuestRegs {
    /// Registers that are all zero.
    pub fn new() -> (r: Self)
        ensures
            forall|x: Register| #[trigger] r@[x] == 0,
            forall|i: int| 0 <= i < FXSAVE_SIZE ==> #[trigger] r.fxsave.bytes@[i] == 0,
    {
        let r = GuestRegs { values: [0; NUM_REGISTERS], fxsave: FxSave { bytes: [0; FXSAVE_SIZE] } };
        proof {
            assert forall|x: Register| #[trigger] r@[x] == 0 by {
                x.lemma_place();
            }
        }
        r
    }

    /// Reads a register.
    pub fn reg(&self, register: Register) -> (r: u64)
        ensures
            r == self@[register],
    {
        self.values[register.index()]
    }

    /// Writes a register.
    pub fn set_reg(&mut self, register: Register, value: u64)
        ensures
            final(self)@ == old(self)@.insert(register, value),
            final(self).fxsave == old(self).fxsave,
    {
        let i: usize = register.index();
        self.values[i] = value;
        proof {
            assert forall|x: Register| #[trigger] self@[x] == old(self)@.insert(register, value)[x] by {
                x.lemma_place();
                register.lemma_place();
            }
            assert(self@ =~= old(self)@.insert(register, value));
        }
    }
}

} // verus!
