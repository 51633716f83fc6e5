//! Snapshot files.
//!
//! A file starts with a signature, followed by the size of the register state,
//! the register state, the number of regions of physical memory, and for each
//! region its first and its last address and where its bytes stand in the file.
use vstd::prelude::*;
use std::sync::Arc;
use crate::access::has_bit;
use crate::addr_map::{is_floor, AddrMap};
use crate::bytes::{le_value, lemma_le_value_bound, lemma_pow256_values, read_u32, read_u64};
use crate::ept::PageState;
use crate::page::lemma_same_page;
use crate::regs::{FxSave, GuestRegs, Register, FXSAVE_SIZE, NUM_REGISTERS};
use crate::rng::Rng;
use crate::session::FuzzSession;
use crate::snapshot::{law_no_region_no_page, law_region_page, NetBacking, PhysRange};
use crate::stats::no_statistics;
use crate::worker::{Module, Worker};

verus! {

/// The size of the register state in a snapshot file.
pub const REGS_SIZE: u64 = 1088;

/// Where the floating-point state stands in the register state.
pub const FXSAVE_AT: usize = 576;

/// Why a file is no snapshot.
#[derive(Clone, Copy, PartialEq, Eq, Structural, Debug)]
pub enum DumpError {
    /// The file does not start with the signature.
    Signature,
    /// The file ends too early.
    Truncated,
    /// A region does not consist of whole pages.
    Region,
    /// The register state does not have the right size.
    Registers,
}

/// Where a register stands in the register state, and how many bytes it takes
/// up there.
#[derive(Clone, Copy, PartialEq, Eq, Structural, Debug)]
pub struct Field {
    pub at: usize,
    pub width: usize,
}

/// The bytes `FALKDUMP`.
pub open spec fn signature() -> Seq<u8> {
    seq![0x46, 0x41, 0x4c, 0x4b, 0x44, 0x55, 0x4d, 0x50]
}

/// The little-endian number of 8 bytes at `at`.
pub open spec fn u64_at(image: Seq<u8>, at: int) -> u64 {
    le_value(image.subrange(at, at + 8)) as u64
}

/// The little-endian number of 4 bytes at `at`.
pub open spec fn u32_at(image: Seq<u8>, at: int) -> u32 {
    le_value(image.subrange(at, at + 4)) as u32
}

/// The region whose description stands at `at` consists of whole pages.
pub open spec fn region_ok(image: Seq<u8>, at: int) -> bool {
    let start = u64_at(image, at);
    let end = u64_at(image, at + 8);
    end > start && end % 4096 == 4095 && start % 4096 == 0
}

/// What is wrong with the first region that is wrong, of those from the `i`th to
/// the `n`th, if the first one stands at `at`.
pub open spec fn regions_error(image: Seq<u8>, at: int, i: int, n: int) -> Option<DumpError>
    decreases n - i,
{
    if i >= n {
        None
    } else if at + 24 * (i + 1) > image.len() {
        Some(DumpError::Truncated)
    } else if !region_ok(image, at + 24 * i) {
        Some(DumpError::Region)
    } else {
        regions_error(image, at, i + 1, n)
    }
}

/// What is wrong with a file, if anything.
pub open spec fn dump_error(image: Seq<u8>) -> Option<DumpError> {
    if image.len() < 8 || image.subrange(0, 8) != signature() {
        Some(DumpError::Signature)
    } else if image.len() < 16 || image.len() < 24 + u64_at(image, 8) {
        Some(DumpError::Truncated)
    } else {
        let regs_size = u64_at(image, 8) as int;
        let regions = u64_at(image, 16 + regs_size) as int;
        let error = regions_error(image, 24 + regs_size, 0, regions);
        if error is Some {
            error
        } else if regs_size != REGS_SIZE {
            Some(DumpError::Registers)
        } else {
            None
        }
    }
}

/// The number of regions in a snapshot.
pub open spec fn region_count(image: Seq<u8>) -> nat {
    u64_at(image, 16 + REGS_SIZE) as nat
}

/// The first `n` regions of a snapshot, by their first addresses. Of two regions
/// with the same first address the later one counts.
pub open spec fn regions(image: Seq<u8>, n: nat) -> Map<u64, PhysRange>
    decreases n,
{
    if n == 0 {
        Map::empty()
    } else {
        let at = 24 + REGS_SIZE + 24 * (n - 1);
        regions(image, (n - 1) as nat).insert(
            u64_at(image, at),
            PhysRange { offset: u64_at(image, at + 16), end: u64_at(image, at + 8) },
        )
    }
}

/// Where a register stands in the register state.
pub open spec fn field(register: Register) -> Field {
    match register {
        Register::Rax => Field { at: 8, width: 8 },
        Register::Rbx => Field { at: 16, width: 8 },
        Register::Rcx => Field { at: 24, width: 8 },
        Register::Rdx => Field { at: 32, width: 8 },
        Register::Rsi => Field { at: 40, width: 8 },
        Register::Rdi => Field { at: 48, width: 8 },
        Register::Rsp => Field { at: 56, width: 8 },
        Register::Rbp => Field { at: 64, width: 8 },
        Register::R8 => Field { at: 72, width: 8 },
        Register::R9 => Field { at: 80, width: 8 },
        Register::R10 => Field { at: 88, width: 8 },
        Register::R11 => Field { at: 96, width: 8 },
        Register::R12 => Field { at: 104, width: 8 },
        Register::R13 => Field { at: 112, width: 8 },
        Register::R14 => Field { at: 120, width: 8 },
        Register::R15 => Field { at: 128, width: 8 },
        Register::Rip => Field { at: 136, width: 8 },
        Register::Rflags => Field { at: 144, width: 8 },
        Register::Cs => Field { at: 152, width: 4 },
        Register::CsLimit => Field { at: 156, width: 4 },
        Register::CsAccessRights => Field { at: 160, width: 4 },
        Register::CsBase => Field { at: 168, width: 8 },
        Register::Ds => Field { at: 176, width: 4 },
        Register::DsLimit => Field { at: 180, width: 4 },
        Register::DsAccessRights => Field { at: 184, width: 4 },
        Register::DsBase => Field { at: 192, width: 8 },
        Register::Es => Field { at: 200, width: 4 },
        Register::EsLimit => Field { at: 204, width: 4 },
        Register::EsAccessRights => Field { at: 208, width: 4 },
        Register::EsBase => Field { at: 216, width: 8 },
        Register::Fs => Field { at: 224, width: 4 },
        Register::FsLimit => Field { at: 228, width: 4 },
        Register::FsAccessRights => Field { at: 232, width: 4 },
        Register::FsBase => Field { at: 240, width: 8 },
        Register::Gs => Field { at: 248, width: 4 },
        Register::GsLimit => Field { at: 252, width: 4 },
        Register::GsAccessRights => Field { at: 256, width: 4 },
        Register::GsBase => Field { at: 264, width: 8 },
        Register::Ss => Field { at: 272, width: 4 },
        Register::SsLimit => Field { at: 276, width: 4 },
        Register::SsAccessRights => Field { at: 280, width: 4 },
        Register::SsBase => Field { at: 288, width: 8 },
        Register::Ldtr => Field { at: 296, width: 4 },
        Register::LdtrLimit => Field { at: 300, width: 4 },
        Register::LdtrAccessRights => Field { at: 304, width: 4 },
        Register::LdtrBase => Field { at: 312, width: 8 },
        Register::Tr => Field { at: 320, width: 4 },
        Register::TrLimit => Field { at: 324, width: 4 },
        Register::TrAccessRights => Field { at: 328, width: 4 },
        Register::TrBase => Field { at: 336, width: 8 },
        Register::GdtrLimit => Field { at: 348, width: 4 },
        Register::GdtrBase => Field { at: 360, width: 8 },
        Register::IdtrLimit => Field { at: 372, width: 4 },
        Register::IdtrBase => Field { at: 384, width: 8 },
        Register::Cr0 => Field { at: 392, width: 8 },
        Register::Cr2 => Field { at: 408, width: 8 },
        Register::Cr3 => Field { at: 416, width: 8 },
        Register::Cr4 => Field { at: 424, width: 8 },
        Register::KernelGsBase => Field { at: 432, width: 8 },
        Register::Cr8 => Field { at: 440, width: 8 },
        Register::CStar => Field { at: 448, width: 8 },
        Register::LStar => Field { at: 456, width: 8 },
        Register::FMask => Field { at: 464, width: 8 },
        Register::Star => Field { at: 472, width: 8 },
        Register::SysenterCs => Field { at: 480, width: 8 },
        Register::SysenterEsp => Field { at: 488, width: 8 },
        Register::SysenterEip => Field { at: 496, width: 8 },
        Register::Efer => Field { at: 504, width: 8 },
        Register::Dr7 => Field { at: 568, width: 8 },
    }
}

/// What the file says of a register.
pub open spec fn stored(image: Seq<u8>, register: Register) -> u64 {
    let at = 16 + field(register).at as int;
    if field(register).width == 4 {
        u32_at(image, at) as u64
    } else {
        u64_at(image, at)
    }
}

/// The limit of the segment whose access rights a register holds.
pub open spec fn limit_of(access_rights: Register) -> Option<Register> {
    match access_rights {
        Register::CsAccessRights => Some(Register::CsLimit),
        Register::DsAccessRights => Some(Register::DsLimit),
        Register::EsAccessRights => Some(Register::EsLimit),
        Register::FsAccessRights => Some(Register::FsLimit),
        Register::GsAccessRights => Some(Register::GsLimit),
        Register::SsAccessRights => Some(Register::SsLimit),
        Register::LdtrAccessRights => Some(Register::LdtrLimit),
        Register::TrAccessRights => Some(Register::TrLimit),
        _ => None,
    }
}

/// The register holds a limit that has no meaning in long mode.
pub open spec fn is_plain_limit(register: Register) -> bool {
    match register {
        Register::CsLimit => true,
        Register::DsLimit => true,
        Register::EsLimit => true,
        Register::FsLimit => true,
        Register::GsLimit => true,
        Register::SsLimit => true,
        _ => false,
    }
}

/// The limit of a segment. In long mode the limits that have no meaning are zero.
pub open spec fn loaded_limit(image: Seq<u8>, limit: Register) -> u64 {
    if is_plain_limit(limit) && has_bit(stored(image, Register::Efer), 8) {
        0
    } else {
        stored(image, limit)
    }
}

/// Access rights as the processor expects them: a segment that is not present is
/// unusable, and a limit that does not end a page is not counted in pages.
pub open spec fn filtered_rights(rights: u64, limit: u64) -> u64 {
    let usable = if rights & (1u64 << 7) == 0 {
        0x10000
    } else {
        rights
    };
    if limit & 0xfff != 0xfff {
        usable & !(1u64 << 15)
    } else {
        usable
    }
}

/// The value with which a register starts.
pub open spec fn loaded(image: Seq<u8>, register: Register) -> u64 {
    match limit_of(register) {
        Some(limit) => filtered_rights(stored(image, register) >> 8, loaded_limit(image, limit)),
        None => if register == Register::Cr4 {
            stored(image, register) | (1u64 << 13)
        } else {
            loaded_limit(image, register)
        },
    }
}

/// Where a register stands in the register state.
fn field_of(register: Register) -> (r: Field)
    ensures
        r == field(register),
        r.at + r.width <= FXSAVE_AT,
        r.width == 4 || r.width == 8,
{
    match register {
        Register::Rax => Field { at: 8, width: 8 },
        Register::Rbx => Field { at: 16, width: 8 },
        Register::Rcx => Field { at: 24, width: 8 },
        Register::Rdx => Field { at: 32, width: 8 },
        Register::Rsi => Field { at: 40, width: 8 },
        Register::Rdi => Field { at: 48, width: 8 },
        Register::Rsp => Field { at: 56, width: 8 },
        Register::Rbp => Field { at: 64, width: 8 },
        Register::R8 => Field { at: 72, width: 8 },
        Register::R9 => Field { at: 80, width: 8 },
        Register::R10 => Field { at: 88, width: 8 },
        Register::R11 => Field { at: 96, width: 8 },
        Register::R12 => Field { at: 104, width: 8 },
        Register::R13 => Field { at: 112, width: 8 },
        Register::R14 => Field { at: 120, width: 8 },
        Register::R15 => Field { at: 128, width: 8 },
        Register::Rip => Field { at: 136, width: 8 },
        Register::Rflags => Field { at: 144, width: 8 },
        Register::Cs => Field { at: 152, width: 4 },
        Register::CsLimit => Field { at: 156, width: 4 },
        Register::CsAccessRights => Field { at: 160, width: 4 },
        Register::CsBase => Field { at: 168, width: 8 },
        Register::Ds => Field { at: 176, width: 4 },
        Register::DsLimit => Field { at: 180, width: 4 },
        Register::DsAccessRights => Field { at: 184, width: 4 },
        Register::DsBase => Field { at: 192, width: 8 },
        Register::Es => Field { at: 200, width: 4 },
        Register::EsLimit => Field { at: 204, width: 4 },
        Register::EsAccessRights => Field { at: 208, width: 4 },
        Register::EsBase => Field { at: 216, width: 8 },
        Register::Fs => Field { at: 224, width: 4 },
        Register::FsLimit => Field { at: 228, width: 4 },
        Register::FsAccessRights => Field { at: 232, width: 4 },
        Register::FsBase => Field { at: 240, width: 8 },
        Register::Gs => Field { at: 248, width: 4 },
        Register::GsLimit => Field { at: 252, width: 4 },
        Register::GsAccessRights => Field { at: 256, width: 4 },
        Register::GsBase => Field { at: 264, width: 8 },
        Register::Ss => Field { at: 272, width: 4 },
        Register::SsLimit => Field { at: 276, width: 4 },
        Register::SsAccessRights => Field { at: 280, width: 4 },
        Register::SsBase => Field { at: 288, width: 8 },
        Register::Ldtr => Field { at: 296, width: 4 },
        Register::LdtrLimit => Field { at: 300, width: 4 },
        Register::LdtrAccessRights => Field { at: 304, width: 4 },
        Register::LdtrBase => Field { at: 312, width: 8 },
        Register::Tr => Field { at: 320, width: 4 },
        Register::TrLimit => Field { at: 324, width: 4 },
        Register::TrAccessRights => Field { at: 328, width: 4 },
        Register::TrBase => Field { at: 336, width: 8 },
        Register::GdtrLimit => Field { at: 348, width: 4 },
        Register::GdtrBase => Field { at: 360, width: 8 },
        Register::IdtrLimit => Field { at: 372, width: 4 },
        Register::IdtrBase => Field { at: 384, width: 8 },
        Register::Cr0 => Field { at: 392, width: 8 },
        Register::Cr2 => Field { at: 408, width: 8 },
        Register::Cr3 => Field { at: 416, width: 8 },
        Register::Cr4 => Field { at: 424, width: 8 },
        Register::KernelGsBase => Field { at: 432, width: 8 },
        Register::Cr8 => Field { at: 440, width: 8 },
        Register::CStar => Field { at: 448, width: 8 },
        Register::LStar => Field { at: 456, width: 8 },
        Register::FMask => Field { at: 464, width: 8 },
        Register::Star => Field { at: 472, width: 8 },
        Register::SysenterCs => Field { at: 480, width: 8 },
        Register::SysenterEsp => Field { at: 488, width: 8 },
        Register::SysenterEip => Field { at: 496, width: 8 },
        Register::Efer => Field { at: 504, width: 8 },
        Register::Dr7 => Field { at: 568, width: 8 },
    }
}

/// The register at a place of a register file.
fn register_at(place: usize) -> (r: Register)
    requires
        place < NUM_REGISTERS,
    ensures
        r.place() == place,
{
    match place {
        0 => Register::Rax,
        1 => Register::Rbx,
        2 => Register::Rcx,
        3 => Register::Rdx,
        4 => Register::Rsi,
        5 => Register::Rdi,
        6 => Register::Rsp,
        7 => Register::Rbp,
        8 => Register::R8,
        9 => Register::R9,
        10 => Register::R10,
        11 => Register::R11,
        12 => Register::R12,
        13 => Register::R13,
        14 => Register::R14,
        15 => Register::R15,
        16 => Register::Rip,
        17 => Register::Rflags,
        18 => Register::Cs,
        19 => Register::CsLimit,
        20 => Register::CsAccessRights,
        21 => Register::CsBase,
        22 => Register::Ds,
        23 => Register::DsLimit,
        24 => Register::DsAccessRights,
        25 => Register::DsBase,
        26 => Register::Es,
        27 => Register::EsLimit,
        28 => Register::EsAccessRights,
        29 => Register::EsBase,
        30 => Register::Fs,
        31 => Register::FsLimit,
        32 => Register::FsAccessRights,
        33 => Register::FsBase,
        34 => Register::Gs,
        35 => Register::GsLimit,
        36 => Register::GsAccessRights,
        37 => Register::GsBase,
        38 => Register::Ss,
        39 => Register::SsLimit,
        40 => Register::SsAccessRights,
        41 => Register::SsBase,
        42 => Register::Ldtr,
        43 => Register::LdtrLimit,
        44 => Register::LdtrAccessRights,
        45 => Register::LdtrBase,
        46 => Register::Tr,
        47 => Register::TrLimit,
        48 => Register::TrAccessRights,
        49 => Register::TrBase,
        50 => Register::GdtrLimit,
        51 => Register::GdtrBase,
        52 => Register::IdtrLimit,
        53 => Register::IdtrBase,
        54 => Register::Cr0,
        55 => Register::Cr2,
        56 => Register::Cr3,
        57 => Register::Cr4,
        58 => Register::KernelGsBase,
        59 => Register::Cr8,
        60 => Register::CStar,
        61 => Register::LStar,
        62 => Register::FMask,
        63 => Register::Star,
        64 => Register::SysenterCs,
        65 => Register::SysenterEsp,
        66 => Register::SysenterEip,
        67 => Register::Efer,
        _ => Register::Dr7,
    }
}

/// The little-endian number of 8 bytes at `at`.
fn load_u64(image: &[u8], at: usize) -> (r: u64)
    requires
        at + 8 <= image@.len(),
    ensures
        r == u64_at(image@, at as int),
{
    read_u64(image, at)
}

/// What the file says of a register.
fn load_stored(image: &[u8], register: Register) -> (r: u64)
    requires
        image@.len() >= 16 + REGS_SIZE,
    ensures
        r == stored(image@, register),
{
    let field: Field = field_of(register);
    if field.width == 4 {
        read_u32(image, 16 + field.at) as u64
    } else {
        read_u64(image, 16 + field.at)
    }
}

/// The limit of the segment whose access rights a register holds.
fn find_limit(access_rights: Register) -> (r: Option<Register>)
    ensures
        r == limit_of(access_rights),
{
    match access_rights {
        Register::CsAccessRights => Some(Register::CsLimit),
        Register::DsAccessRights => Some(Register::DsLimit),
        Register::EsAccessRights => Some(Register::EsLimit),
        Register::FsAccessRights => Some(Register::FsLimit),
        Register::GsAccessRights => Some(Register::GsLimit),
        Register::SsAccessRights => Some(Register::SsLimit),
        Register::LdtrAccessRights => Some(Register::LdtrLimit),
        Register::TrAccessRights => Some(Register::TrLimit),
        _ => None,
    }
}

/// The limit of a segment, or another register as the file has it.
fn load_limit(image: &[u8], limit: Register) -> (r: u64)
    requires
        image@.len() >= 16 + REGS_SIZE,
    ensures
        r == loaded_limit(image@, limit),
{
    let plain: bool = match limit {
        Register::CsLimit => true,
        Register::DsLimit => true,
        Register::EsLimit => true,
        Register::FsLimit => true,
        Register::GsLimit => true,
        Register::SsLimit => true,
        _ => false,
    };
    if plain && load_stored(image, Register::Efer) & (1u64 << 8) != 0 {
        0
    } else {
        load_stored(image, limit)
    }
}

/// The value with which a register starts.
fn load_register(image: &[u8], register: Register) -> (r: u64)
    requires
        image@.len() >= 16 + REGS_SIZE,
    ensures
        r == loaded(image@, register),
{
    let value: u64 = load_stored(image, register);
    match find_limit(register) {
        Some(limit_register) => {
            let limit: u64 = load_limit(image, limit_register);
            let mut rights: u64 = value >> 8;
            // Mark any non-present segment as inactive
            if rights & (1u64 << 7) == 0 {
                rights = 0x10000;
            }
            // If any bit in the bottom 12 bits of the limit is zero, then G must be
            // zero
            if limit & 0xfff != 0xfff {
                rights = rights & !(1u64 << 15);
            }
            rights
        },
        None => match register {
            Register::Cr4 => value | (1u64 << 13),
            _ => load_limit(image, register),
        },
    }
}

/// The registers with which a guest starts.
fn load_registers(image: &[u8]) -> (r: GuestRegs)
    requires
        image@.len() >= 16 + REGS_SIZE,
    ensures
        forall|x: Register| #[trigger] r@[x] == loaded(image@, x),
        r.fxsave.bytes@ == image@.subrange(16 + FXSAVE_AT, 16 + REGS_SIZE),
{
    let mut regs: GuestRegs = GuestRegs::new();
    let mut i: usize = 0;
    while i < NUM_REGISTERS
        invariant
            i <= NUM_REGISTERS,
            image@.len() >= 16 + REGS_SIZE,
            forall|x: Register| x.place() < i ==> #[trigger] regs@[x] == loaded(image@, x),
        decreases NUM_REGISTERS - i,
    {
        let register: Register = register_at(i);
        let value: u64 = load_register(image, register);
        regs.set_reg(register, value);
        proof {
            assert forall|x: Register| x.place() < i + 1 implies #[trigger] regs@[x] == loaded(
                image@,
                x,
            ) by {
                x.lemma_place();
                register.lemma_place();
            }
        }
        i = i + 1;
    }
    let mut bytes: [u8; FXSAVE_SIZE] = [0; FXSAVE_SIZE];
    let mut j: usize = 0;
    while j < FXSAVE_SIZE
        invariant
            j <= FXSAVE_SIZE,
            image@.len() >= 16 + REGS_SIZE,
            forall|k: int| 0 <= k < j ==> #[trigger] bytes@[k] == image@[16 + FXSAVE_AT + k],
        decreases FXSAVE_SIZE - j,
    {
        bytes[j] = image[16 + FXSAVE_AT + j];
        j = j + 1;
    }
    assert(bytes@ =~= image@.subrange(16 + FXSAVE_AT, 16 + REGS_SIZE));
    let ghost before = regs;
    regs.fxsave = FxSave { bytes };
    proof {
        assert forall|x: Register| #[trigger] regs@[x] == loaded(image@, x) by {
            x.lemma_place();
            assert(regs@[x] == before@[x]);
        }
    }
    regs
}

/// Whether the file starts with the signature.
fn has_signature(image: &[u8]) -> (r: bool)
    ensures
        r == (image@.len() >= 8 && image@.subrange(0, 8) == signature()),
{
    if image.len() < 8 {
        return false;
    }
    let found: bool = image[0] == 0x46 && image[1] == 0x41 && image[2] == 0x4c && image[3] == 0x4b
        && image[4] == 0x44 && image[5] == 0x55 && image[6] == 0x4d && image[7] == 0x50;
    proof {
        let start = image@.subrange(0, 8);
        assert(forall|i: int| 0 <= i < 8 ==> #[trigger] start[i] == image@[i]);
        if found {
            assert(start =~= signature());
        } else if start == signature() {
            assert(start[0] == 0x46 && start[1] == 0x41 && start[2] == 0x4c && start[3] == 0x4b);
            assert(start[4] == 0x44 && start[5] == 0x55 && start[6] == 0x4d && start[7] == 0x50);
        }
    }
    found
}

/// Checks the descriptions of `count` regions, the first of which stands at `at`.
fn check_regions(image: &[u8], at: usize, count: u64) -> (r: Result<(), DumpError>)
    requires
        at <= image@.len(),
    ensures
        match r {
            Ok(_) => regions_error(image@, at as int, 0, count as int) is None,
            Err(error) => regions_error(image@, at as int, 0, count as int) == Some(error),
        },
{
    let len: usize = image.len();
    let mut i: u64 = 0;
    let mut next: usize = at;
    while i < count
        invariant
            i <= count,
            at <= next <= len == image@.len(),
            next == at + 24 * i,
            regions_error(image@, at as int, 0, count as int) == regions_error(
                image@,
                at as int,
                i as int,
                count as int,
            ),
        decreases count - i,
    {
        if len - next < 24 {
            return Err(DumpError::Truncated);
        }
        let start: u64 = load_u64(image, next);
        let end: u64 = load_u64(image, next + 8);
        if !(end > start && end % 4096 == 4095 && start % 4096 == 0) {
            return Err(DumpError::Region);
        }
        next = next + 24;
        i = i + 1;
    }
    Ok(())
}

/// Checks whether a file is a snapshot.
pub fn check_falkdump(image: &[u8]) -> (r: Result<(), DumpError>)
    ensures
        match r {
            Ok(_) => dump_error(image@) is None,
            Err(error) => dump_error(image@) == Some(error),
        },
{
    let len: usize = image.len();
    if !has_signature(image) {
        return Err(DumpError::Signature);
    }
    if len < 24 {
        return Err(DumpError::Truncated);
    }
    let regs_size: u64 = load_u64(image, 8);
    if regs_size > (len - 24) as u64 {
        return Err(DumpError::Truncated);
    }
    let count: u64 = load_u64(image, 16 + regs_size as usize);
    match check_regions(image, 24 + regs_size as usize, count) {
        Ok(_) => {
            if regs_size != REGS_SIZE {
                Err(DumpError::Registers)
            } else {
                Ok(())
            }
        },
        Err(error) => Err(error),
    }
}

/// A snapshot is as long as its regions' descriptions need.
proof fn lemma_regions_len(image: Seq<u8>, at: int, i: int, n: int)
    requires
        0 <= i <= n,
        at + 24 * i <= image.len(),
        regions_error(image, at, i, n) is None,
    ensures
        at + 24 * n <= image.len(),
    decreases n - i,
{
    if i < n {
        lemma_regions_len(image, at, i + 1, n);
    }
}

/// Reads the descriptions of the regions of physical memory.
fn load_regions(image: &[u8]) -> (r: AddrMap<PhysRange>)
    requires
        dump_error(image@) is None,
    ensures
        r.wf(),
        r@ == regions(image@, region_count(image@)),
{
    let len: usize = image.len();
    let count: u64 = load_u64(image, 1104);
    proof {
        lemma_regions_len(image@, 1112, 0, count as int);
    }
    let mut ranges: AddrMap<PhysRange> = AddrMap::new();
    let mut i: u64 = 0;
    let mut at: usize = 1112;
    while i < count
        invariant
            i <= count,
            at == 1112 + 24 * i,
            1112 + 24 * count <= len == image@.len(),
            ranges.wf(),
            ranges@ == regions(image@, i as nat),
        decreases count - i,
    {
        let start: u64 = load_u64(image, at);
        let end: u64 = load_u64(image, at + 8);
        let offset: u64 = load_u64(image, at + 16);
        ranges.insert(start, PhysRange { offset, end });
        at = at + 24;
        i = i + 1;
    }
    ranges
}

/// The master that a snapshot file gives.
pub open spec fn is_loaded<C>(master: Worker<C>, memory: Vec<u8>, rng: Rng) -> bool {
    &&& master.master is None
    &&& master.network_mem matches Some(backing) && backing.memory == memory
        && backing.phys_ranges@ == regions(memory@, region_count(memory@))
    &&& forall|x: Register| #[trigger] master.vm.guest_regs@[x] == loaded(memory@, x)
    &&& master.vm.guest_regs.fxsave.bytes@ == memory@.subrange(16 + FXSAVE_AT, 16 + REGS_SIZE)
    &&& master.vm.ept@ == Map::<u64, PageState>::empty()
    &&& master.vm.preemption_timer is None
    &&& master.rng == rng
    &&& master.stats == no_statistics()
    &&& master.sync == 0
    &&& master.worker_id == u64::MAX
    &&& master.module_list@ == Map::<u64, Module>::empty()
    &&& master.fuzz_input is None
    &&& master.session is None
    &&& master.global_context is None
}

impl<C, I, F> FuzzSession<C, I, F> {
    /// Create a new empty fuzz session from a snapshot file.
    pub fn from_falkdump(memory: Vec<u8>, rng: Rng, id: u64) -> (r: Self)
        requires
            dump_error(memory@) is None,
        ensures
            r.wf(),
            r.is_fresh(id),
            r.master_vm.is_own(),
            is_loaded(r.master_vm.vm(), memory, rng),
    {
        let phys_ranges: AddrMap<PhysRange> = load_regions(memory.as_slice());
        let regs: GuestRegs = load_registers(memory.as_slice());
        let backing: Arc<NetBacking> = Arc::new(NetBacking { memory, phys_ranges });
        let mut master: Worker<C> = Worker::from_net(backing, rng);
        master.vm.guest_regs = regs;
        FuzzSession::from_master(master, id)
    }
}

/// The regions of a snapshot consist of whole pages.
pub proof fn law_regions_are_pages(image: Seq<u8>, n: nat, base: u64)
    requires
        dump_error(image) is None,
        n <= region_count(image),
        regions(image, n).contains_key(base),
    ensures
        base % 4096 == 0,
        regions(image, n)[base].end % 4096 == 4095,
        regions(image, n)[base].end > base,
    decreases n,
{
    let at = 24 + REGS_SIZE + 24 * (n - 1);
    lemma_region_ok(image, 24 + REGS_SIZE, 0, region_count(image) as int, n - 1);
    if n > 0 && u64_at(image, at) != base {
        law_regions_are_pages(image, (n - 1) as nat, base);
    }
}

proof fn lemma_region_ok(image: Seq<u8>, at: int, i: int, n: int, k: int)
    requires
        regions_error(image, at, i, n) is None,
        0 <= i,
    ensures
        i <= k < n ==> region_ok(image, at + 24 * k),
    decreases n - i,
{
    if i < n {
        lemma_region_ok(image, at, i + 1, n, k);
    }
}

/// A worker that was just forked from the master of a snapshot sees the bytes of
/// the file: a page of a region stands as far behind the region's place in the
/// file as it stands behind the region's first page.
pub proof fn law_fork_sees_snapshot<C>(
    master: &Worker<C>,
    worker: &Worker<C>,
    memory: Vec<u8>,
    rng: Rng,
    base: u64,
    page: u64,
)
    requires
        is_loaded(*master, memory, rng),
        forall|p: u64| #[trigger] worker.page(p) == master.page(p),
        is_floor(regions(memory@, region_count(memory@)), page, base),
        page <= regions(memory@, region_count(memory@))[base].end,
    ensures
        ({
            let at = regions(memory@, region_count(memory@))[base].offset + (page - base);
            worker.page(page) == if at + 4096 <= memory@.len() {
                Some(memory@.subrange(at, at + 4096))
            } else {
                None
            }
        }),
{
    let backing = master.network_mem->0;
    law_region_page(&backing, base, page);
    assert(worker.page(page) == master.page(page));
}

/// The little-endian number of `n` bytes at `at` in a file.
pub open spec fn number_at(image: Seq<u8>, at: int, n: int) -> nat {
    le_value(image.subrange(at, at + n))
}

proof fn lemma_numbers(image: Seq<u8>, at: int)
    requires
        0 <= at,
    ensures
        at + 8 <= image.len() ==> u64_at(image, at) == number_at(image, at, 8),
        at + 4 <= image.len() ==> u32_at(image, at) == number_at(image, at, 4),
{
    lemma_pow256_values();
    if at + 8 <= image.len() {
        lemma_le_value_bound(image.subrange(at, at + 8));
    }
    if at + 4 <= image.len() {
        lemma_le_value_bound(image.subrange(at, at + 4));
    }
}

/// The bytes of a file that describe its regions are those of whole pages: the
/// region number `k` ends behind its start, starts with a page and ends with one.
pub open spec fn is_region(image: Seq<u8>, k: int) -> bool {
    let start = number_at(image, 1112 + 24 * k, 8);
    let end = number_at(image, 1120 + 24 * k, 8);
    start < end && start % 4096 == 0 && end % 4096 == 4095
}

/// A file is a snapshot if and only if it starts with the signature, has a register
/// state of the right size, is long enough for the descriptions of its regions, and
/// all of its regions consist of whole pages.
#[verifier::spinoff_prover]
#[verifier::rlimit(40)]
pub proof fn law_valid_file(image: Seq<u8>)
    ensures
        dump_error(image) is None <==> {
            &&& image.len() >= 1112
            &&& image[0] == 0x46 && image[1] == 0x41 && image[2] == 0x4c && image[3] == 0x4b
            &&& image[4] == 0x44 && image[5] == 0x55 && image[6] == 0x4d && image[7] == 0x50
            &&& number_at(image, 8, 8) == 1088
            &&& 1112 + 24 * number_at(image, 1104, 8) <= image.len()
            &&& forall|k: int|
                0 <= k < number_at(image, 1104, 8) ==> #[trigger] is_region(image, k)
        },
{
    let start = image.subrange(0, 8);
    let signed = image[0] == 0x46 && image[1] == 0x41 && image[2] == 0x4c && image[3] == 0x4b
        && image[4] == 0x44 && image[5] == 0x55 && image[6] == 0x4d && image[7] == 0x50;
    if image.len() >= 8 {
        assert(forall|i: int| 0 <= i < 8 ==> #[trigger] start[i] == image[i]);
        if signed {
            assert(start =~= signature());
        } else if start == signature() {
            assert(start[0] == 0x46 && start[1] == 0x41 && start[2] == 0x4c && start[3] == 0x4b);
            assert(start[4] == 0x44 && start[5] == 0x55 && start[6] == 0x4d && start[7] == 0x50);
        }
    }
    lemma_numbers(image, 8);
    lemma_numbers(image, 1104);
    if image.len() >= 1112 && u64_at(image, 8) == 1088 {
        let n = u64_at(image, 1104) as int;
        lemma_regions_all(image, 0, n);
        if regions_error(image, 1112, 0, n) is None {
            assert forall|k: int| 0 <= k < n implies #[trigger] is_region(image, k) by {
                lemma_region_ok(image, 1112, 0, n, k);
                lemma_regions_len(image, 1112, 0, n);
                lemma_numbers(image, 1112 + 24 * k);
                lemma_numbers(image, 1120 + 24 * k);
            }
            lemma_regions_len(image, 1112, 0, n);
        }
    }
}

/// Where the regions from the `i`th on are as they should be, nothing is wrong with
/// them.
proof fn lemma_regions_all(image: Seq<u8>, i: int, n: int)
    requires
        0 <= i <= n,
    ensures
        1112 + 24 * n <= image.len() && (forall|k: int| i <= k < n ==> #[trigger] is_region(image, k))
            ==> regions_error(image, 1112, i, n) is None,
    decreases n - i,
{
    if i < n {
        lemma_regions_all(image, i + 1, n);
        if 1112 + 24 * n <= image.len() && is_region(image, i) {
            lemma_numbers(image, 1112 + 24 * i);
            lemma_numbers(image, 1120 + 24 * i);
            assert(region_ok(image, 1112 + 24 * i));
        }
    }
}

/// Each error names what is wrong with a file: the first bytes, a part of the file
/// that is missing, a region, or the size of the register state.
pub proof fn law_errors_are_meant(image: Seq<u8>)
    ensures
        dump_error(image) == Some(DumpError::Signature) <==> !(image.len() >= 8
            && image.subrange(0, 8) == seq![0x46u8, 0x41, 0x4c, 0x4b, 0x44, 0x55, 0x4d, 0x50]),
        dump_error(image) == Some(DumpError::Registers) ==> image.len() >= 24 && number_at(image, 8, 8)
            != 1088,
        dump_error(image) == Some(DumpError::Truncated) ==> image.len() < 16 || image.len() < 24
            + number_at(image, 8, 8) || image.len() < 24 + number_at(image, 8, 8) + 24 * number_at(
            image,
            16 + number_at(image, 8, 8) as int,
            8,
        ),
        dump_error(image) == Some(DumpError::Region) ==> exists|k: int|
            0 <= k < number_at(image, 16 + number_at(image, 8, 8) as int, 8) && !#[trigger] region_ok(
                image,
                24 + number_at(image, 8, 8) + 24 * k,
            ),
{
    lemma_numbers(image, 8);
    if image.len() >= 16 && image.len() >= 24 + u64_at(image, 8) {
        let at = 16 + u64_at(image, 8) as int;
        lemma_numbers(image, at);
        lemma_error_is_meant(image, at + 8, 0, u64_at(image, at) as int);
    }
}

proof fn lemma_error_is_meant(image: Seq<u8>, at: int, i: int, n: int)
    requires
        0 <= i,
    ensures
        regions_error(image, at, i, n) == Some(DumpError::Truncated) ==> at + 24 * n > image.len(),
        regions_error(image, at, i, n) == Some(DumpError::Region) ==> exists|k: int|
            i <= k < n && !#[trigger] region_ok(image, at + 24 * k),
        regions_error(image, at, i, n) != Some(DumpError::Signature),
        regions_error(image, at, i, n) != Some(DumpError::Registers),
    decreases n - i,
{
    if i < n {
        lemma_error_is_meant(image, at, i + 1, n);
    }
}

/// What the first `n` regions of a file are, in the bytes of the file.
proof fn lemma_region_bytes(image: Seq<u8>, n: nat, k: int)
    requires
        dump_error(image) is None,
        n <= number_at(image, 1104, 8),
        0 <= k < n,
        forall|l: int|
            k < l < n ==> #[trigger] number_at(image, 1112 + 24 * l, 8) != number_at(
                image,
                1112 + 24 * k,
                8,
            ),
    ensures
        ({
            let start = number_at(image, 1112 + 24 * k, 8) as u64;
            &&& regions(image, n).contains_key(start)
            &&& regions(image, n)[start].end == number_at(image, 1120 + 24 * k, 8)
            &&& regions(image, n)[start].offset == number_at(image, 1128 + 24 * k, 8)
        }),
    decreases n,
{
    law_valid_file(image);
    let at = 1112 + 24 * (n - 1);
    lemma_numbers(image, at);
    lemma_numbers(image, at + 8);
    lemma_numbers(image, at + 16);
    lemma_numbers(image, 1112 + 24 * k);
    if k < n - 1 {
        lemma_region_bytes(image, (n - 1) as nat, k);
        assert(number_at(image, 1112 + 24 * (n - 1), 8) != number_at(image, 1112 + 24 * k, 8));
    }
}

proof fn lemma_region_known(image: Seq<u8>, n: nat, base: u64)
    requires
        dump_error(image) is None,
        n <= number_at(image, 1104, 8),
        regions(image, n).contains_key(base),
    ensures
        exists|k: int| 0 <= k < n && #[trigger] number_at(image, 1112 + 24 * k, 8) == base,
    decreases n,
{
    law_valid_file(image);
    if n > 0 {
        let at = 1112 + 24 * (n - 1);
        lemma_numbers(image, at);
        if u64_at(image, at) == base {
            assert(number_at(image, 1112 + 24 * (n - 1), 8) == base);
        } else {
            lemma_region_known(image, (n - 1) as nat, base);
        }
    }
}

/// Each region is loaded as its own description has it: under its first address
/// stand the last address and the place in the file that are written behind it. Of
/// descriptions with the same first address the last one counts. No other regions
/// are loaded.
pub proof fn law_region_bytes(image: Seq<u8>, k: int)
    requires
        dump_error(image) is None,
        0 <= k < number_at(image, 1104, 8),
        forall|l: int|
            k < l < number_at(image, 1104, 8) ==> #[trigger] number_at(image, 1112 + 24 * l, 8)
                != number_at(image, 1112 + 24 * k, 8),
    ensures
        ({
            let loaded = regions(image, region_count(image));
            let start = number_at(image, 1112 + 24 * k, 8) as u64;
            &&& start == number_at(image, 1112 + 24 * k, 8)
            &&& loaded.contains_key(start)
            &&& loaded[start].end == number_at(image, 1120 + 24 * k, 8)
            &&& loaded[start].offset == number_at(image, 1128 + 24 * k, 8)
            &&& forall|b: u64| #[trigger]
                loaded.contains_key(b) ==> exists|j: int|
                    0 <= j < number_at(image, 1104, 8) && #[trigger] number_at(
                        image,
                        1112 + 24 * j,
                        8,
                    ) == b
        }),
{
    law_valid_file(image);
    lemma_numbers(image, 1104);
    lemma_numbers(image, 1112 + 24 * k);
    let n = number_at(image, 1104, 8);
    assert(region_count(image) == n);
    lemma_region_bytes(image, n, k);
    assert forall|b: u64| #[trigger] regions(image, n).contains_key(b) implies exists|j: int|
        0 <= j < n && #[trigger] number_at(image, 1112 + 24 * j, 8) == b by {
        lemma_region_known(image, n, b);
    }
}

/// A worker that was just forked from the master of a snapshot sees at each page of
/// a region the bytes of the file that stand as far behind the region's place in the
/// file as the page stands behind the region's first address. The place is the one
/// that the region's own description gives.
#[verifier::spinoff_prover]
#[verifier::rlimit(40)]
pub proof fn law_fork_sees_file<C>(
    master: &Worker<C>,
    worker: &Worker<C>,
    memory: Vec<u8>,
    rng: Rng,
    k: int,
    j: int,
)
    requires
        dump_error(memory@) is None,
        is_loaded(*master, memory, rng),
        forall|p: u64| #[trigger] worker.page(p) == master.page(p),
        0 <= k < number_at(memory@, 1104, 8),
        0 <= j,
        number_at(memory@, 1112 + 24 * k, 8) + 4096 * j <= number_at(memory@, 1120 + 24 * k, 8),
        forall|l: int|
            0 <= l < number_at(memory@, 1104, 8) && l != k ==> {
                let start = #[trigger] number_at(memory@, 1112 + 24 * l, 8);
                start < number_at(memory@, 1112 + 24 * k, 8) || start > number_at(
                    memory@,
                    1112 + 24 * k,
                    8,
                ) + 4096 * j
            },
        number_at(memory@, 1128 + 24 * k, 8) + 4096 * j + 4096 <= memory@.len(),
    ensures
        ({
            let page = (number_at(memory@, 1112 + 24 * k, 8) + 4096 * j) as u64;
            let at = number_at(memory@, 1128 + 24 * k, 8) + 4096 * j;
            &&& worker.page(page) == Some(memory@.subrange(at, at + 4096))
            &&& forall|i: int|
                0 <= i < 4096 ==> #[trigger] worker.mem((page + i) as u64) == Some(memory@[at + i])
        }),
{
    let image = memory@;
    let n = number_at(image, 1104, 8);
    let start = number_at(image, 1112 + 24 * k, 8) as u64;
    law_valid_file(image);
    assert(is_region(image, k));
    lemma_numbers(image, 1112 + 24 * k);
    lemma_numbers(image, 1120 + 24 * k);
    assert forall|l: int| k < l < n implies #[trigger] number_at(image, 1112 + 24 * l, 8)
        != number_at(image, 1112 + 24 * k, 8) by {}
    law_region_bytes(image, k);
    let page = (start + 4096 * j) as u64;
    let loaded = regions(image, region_count(image));
    assert(is_floor(loaded, page, start)) by {
        assert forall|b: u64| #[trigger] loaded.contains_key(b) && b <= page implies b <= start by {
            let l = choose|l: int| 0 <= l < n && #[trigger] number_at(image, 1112 + 24 * l, 8) == b;
            assert(number_at(image, 1112 + 24 * l, 8) == b);
        }
    }
    law_fork_sees_snapshot(master, worker, memory, rng, start, page);
    let at = number_at(image, 1128 + 24 * k, 8) + 4096 * j;
    assert forall|i: int| 0 <= i < 4096 implies #[trigger] worker.mem((page + i) as u64) == Some(
        image[at + i],
    ) by {
        lemma_same_page(page, (page + i) as u64);
        assert(image.subrange(at, at + 4096)[i] == image[at + i]);
    }
}

/// Outside of the regions that its file describes, a worker that was just forked
/// from the master of a snapshot has no memory.
#[verifier::spinoff_prover]
#[verifier::rlimit(40)]
pub proof fn law_fork_sees_nothing_else<C>(
    master: &Worker<C>,
    worker: &Worker<C>,
    memory: Vec<u8>,
    rng: Rng,
    page: u64,
)
    requires
        dump_error(memory@) is None,
        is_loaded(*master, memory, rng),
        forall|p: u64| #[trigger] worker.page(p) == master.page(p),
        forall|l: int|
            0 <= l < number_at(memory@, 1104, 8) ==> page < #[trigger] number_at(
                memory@,
                1112 + 24 * l,
                8,
            ) || page > number_at(memory@, 1120 + 24 * l, 8),
    ensures
        worker.page(page) is None,
{
    let image = memory@;
    let n = number_at(image, 1104, 8);
    let backing = master.network_mem->0;
    law_valid_file(image);
    lemma_numbers(image, 1104);
    assert forall|b: u64| #[trigger] backing.phys_ranges@.contains_key(b) implies page < b || page
        > backing.phys_ranges@[b].end by {
        lemma_region_known(image, n, b);
        let l = choose|l: int| 0 <= l < n && #[trigger] number_at(image, 1112 + 24 * l, 8) == b;
        lemma_last_with_start(image, l, n as int);
    }
    law_no_region_no_page(&backing, page);
    assert(worker.page(page) == master.page(page));
}

/// Of the descriptions with one first address, there is a last one.
proof fn lemma_last_with_start(image: Seq<u8>, l: int, n: int)
    requires
        dump_error(image) is None,
        n == number_at(image, 1104, 8),
        0 <= l < n,
    ensures
        ({
            let start = number_at(image, 1112 + 24 * l, 8) as u64;
            let loaded = regions(image, n as nat);
            exists|k: int|
                0 <= k < n && #[trigger] number_at(image, 1112 + 24 * k, 8) == start
                    && loaded[start].end == number_at(image, 1120 + 24 * k, 8)
        }),
    decreases n - l,
{
    law_valid_file(image);
    lemma_numbers(image, 1112 + 24 * l);
    if exists|m: int|
        l < m < n && #[trigger] number_at(image, 1112 + 24 * m, 8) == number_at(
            image,
            1112 + 24 * l,
            8,
        ) {
        let m = choose|m: int|
            l < m < n && #[trigger] number_at(image, 1112 + 24 * m, 8) == number_at(
                image,
                1112 + 24 * l,
                8,
            );
        lemma_last_with_start(image, m, n);
    } else {
        lemma_region_bytes(image, n as nat, l);
        assert(number_at(image, 1112 + 24 * l, 8) == number_at(image, 1112 + 24 * l, 8) as u64);
    }
}

/// The registers of 8 bytes at the start of the register state, in the order of the
/// file.
pub open spec fn general_order() -> Seq<Register> {
    seq![
        Register::Rax,
        Register::Rbx,
        Register::Rcx,
        Register::Rdx,
        Register::Rsi,
        Register::Rdi,
        Register::Rsp,
        Register::Rbp,
        Register::R8,
        Register::R9,
        Register::R10,
        Register::R11,
        Register::R12,
        Register::R13,
        Register::R14,
        Register::R15,
        Register::Rip,
        Register::Rflags,
    ]
}

/// The registers of 8 bytes from the control register 2 on, in the order of the
/// file, without those that are changed as they are loaded.
pub open spec fn system_order() -> Seq<Option<Register>> {
    seq![
        Some(Register::Cr2),
        Some(Register::Cr3),
        None,
        Some(Register::KernelGsBase),
        Some(Register::Cr8),
        Some(Register::CStar),
        Some(Register::LStar),
        Some(Register::FMask),
        Some(Register::Star),
        Some(Register::SysenterCs),
        Some(Register::SysenterEsp),
        Some(Register::SysenterEip),
        Some(Register::Efer),
        None,
        None,
        None,
        None,
        None,
        None,
        None,
        Some(Register::Dr7),
    ]
}

/// The segments in the order of the file: the registers that hold the selector, the
/// limit, the access rights and the base.
pub open spec fn segment_order() -> Seq<(Register, Register, Register, Register)> {
    seq![
        (Register::Cs, Register::CsLimit, Register::CsAccessRights, Register::CsBase),
        (Register::Ds, Register::DsLimit, Register::DsAccessRights, Register::DsBase),
        (Register::Es, Register::EsLimit, Register::EsAccessRights, Register::EsBase),
        (Register::Fs, Register::FsLimit, Register::FsAccessRights, Register::FsBase),
        (Register::Gs, Register::GsLimit, Register::GsAccessRights, Register::GsBase),
        (Register::Ss, Register::SsLimit, Register::SsAccessRights, Register::SsBase),
        (Register::Ldtr, Register::LdtrLimit, Register::LdtrAccessRights, Register::LdtrBase),
        (Register::Tr, Register::TrLimit, Register::TrAccessRights, Register::TrBase),
    ]
}

/// Registers are loaded from the file one behind the other, 8 bytes each, without
/// any change. The control register 4 gets the bit that virtualization needs.
pub proof fn law_registers_in_order(image: Seq<u8>)
    requires
        image.len() >= 1104,
    ensures
        forall|i: int|
            0 <= i < 18 ==> loaded(image, #[trigger] general_order()[i]) == number_at(
                image,
                24 + 8 * i,
                8,
            ),
        forall|i: int|
            0 <= i < 21 ==> (#[trigger] system_order()[i] matches Some(register) ==> loaded(
                image,
                register,
            ) == number_at(image, 424 + 8 * i, 8)),
        loaded(image, Register::Cr0) == number_at(image, 408, 8),
        loaded(image, Register::GdtrLimit) == number_at(image, 364, 4),
        loaded(image, Register::GdtrBase) == number_at(image, 376, 8),
        loaded(image, Register::IdtrLimit) == number_at(image, 388, 4),
        loaded(image, Register::IdtrBase) == number_at(image, 400, 8),
        ({
            let cr4 = number_at(image, 440, 8);
            loaded(image, Register::Cr4) == if (cr4 / 0x2000) % 2 == 1 {
                cr4
            } else {
                cr4 + 0x2000
            }
        }),
{
    assert forall|i: int| 0 <= i < 18 implies loaded(image, #[trigger] general_order()[i])
        == number_at(image, 24 + 8 * i, 8) by {
        lemma_general_field(i);
        lemma_wide_register(image, general_order()[i], 8 + 8 * i);
    }
    assert forall|i: int| 0 <= i < 21 implies (#[trigger] system_order()[i] matches Some(register)
        ==> loaded(image, register) == number_at(image, 424 + 8 * i, 8)) by {
        lemma_system_field(i);
        if system_order()[i] is Some {
            lemma_wide_register(image, system_order()[i]->0, 408 + 8 * i);
        }
    }
    lemma_other_registers(image);
}

/// A register whose value is loaded as it is.
spec fn is_plain(register: Register) -> bool {
    limit_of(register) is None && !is_plain_limit(register) && register != Register::Cr4
}

#[verifier::spinoff_prover]
proof fn lemma_general_field(i: int)
    requires
        0 <= i < 18,
    ensures
        is_plain(general_order()[i]),
        field(general_order()[i]) == (Field { at: (8 + 8 * i) as usize, width: 8 }),
{
}

#[verifier::spinoff_prover]
proof fn lemma_system_field(i: int)
    requires
        0 <= i < 21,
    ensures
        system_order()[i] matches Some(register) ==> is_plain(register) && field(register) == (Field {
            at: (408 + 8 * i) as usize,
            width: 8,
        }),
{
}

proof fn lemma_wide_register(image: Seq<u8>, register: Register, at: int)
    requires
        image.len() >= 1104,
        0 <= at <= 568,
        is_plain(register),
        field(register) == (Field { at: at as usize, width: 8 }),
    ensures
        loaded(image, register) == number_at(image, 16 + at, 8),
{
    lemma_numbers(image, 16 + at);
}

#[verifier::spinoff_prover]
proof fn lemma_other_registers(image: Seq<u8>)
    requires
        image.len() >= 1104,
    ensures
        loaded(image, Register::Cr0) == number_at(image, 408, 8),
        loaded(image, Register::GdtrLimit) == number_at(image, 364, 4),
        loaded(image, Register::GdtrBase) == number_at(image, 376, 8),
        loaded(image, Register::IdtrLimit) == number_at(image, 388, 4),
        loaded(image, Register::IdtrBase) == number_at(image, 400, 8),
        ({
            let cr4 = number_at(image, 440, 8);
            loaded(image, Register::Cr4) == if (cr4 / 0x2000) % 2 == 1 {
                cr4
            } else {
                cr4 + 0x2000
            }
        }),
{
    lemma_numbers(image, 408);
    lemma_numbers(image, 364);
    lemma_numbers(image, 376);
    lemma_numbers(image, 388);
    lemma_numbers(image, 400);
    lemma_numbers(image, 440);
    let cr4 = u64_at(image, 440);
    assert((cr4 | (1u64 << 13)) == if (cr4 / 0x2000) % 2 == 1 {
        cr4 as int
    } else {
        cr4 + 0x2000
    }) by (bit_vector);
}

/// Segments are loaded from the file one behind the other, 24 bytes each. In long
/// mode the limits of the first six are zero. The access rights stand one byte
/// above the lowest one; a segment that is not present has only the bit that makes
/// it unusable, and otherwise the granularity bit is lost where the limit does not
/// end a page.
#[verifier::spinoff_prover]
pub proof fn law_segments_in_order(image: Seq<u8>, j: int)
    requires
        image.len() >= 1104,
        0 <= j < 8,
    ensures
        ({
            let (selector, limit, rights, base) = segment_order()[j];
            let at = 168 + 24 * j;
            let long_mode = (number_at(image, 520, 8) / 0x100) % 2 == 1;
            let raw = number_at(image, at + 8, 4) / 0x100;
            let granular = (raw / 0x8000) % 2 == 1;
            &&& loaded(image, selector) == number_at(image, at, 4)
            &&& loaded(image, base) == number_at(image, at + 16, 8)
            &&& loaded(image, limit) == if long_mode && j < 6 {
                0
            } else {
                number_at(image, at + 4, 4)
            }
            &&& loaded(image, rights) == if (raw / 0x80) % 2 == 0 {
                0x10000
            } else if granular && loaded(image, limit) % 4096 != 4095 {
                raw - 0x8000
            } else {
                raw as int
            }
        }),
{
    let at = 168 + 24 * j;
    let (selector, limit, rights, base) = segment_order()[j];
    lemma_numbers(image, at);
    lemma_numbers(image, at + 4);
    lemma_numbers(image, at + 8);
    lemma_numbers(image, at + 16);
    lemma_numbers(image, 520);
    assert(field(selector) == Field { at: (152 + 24 * j) as usize, width: 4 });
    assert(field(limit) == Field { at: (156 + 24 * j) as usize, width: 4 });
    assert(field(rights) == Field { at: (160 + 24 * j) as usize, width: 4 });
    assert(field(base) == Field { at: (168 + 24 * j) as usize, width: 8 });
    assert(limit_of(selector) is None && limit_of(limit) is None && limit_of(base) is None);
    assert(limit_of(rights) == Some(limit));
    assert(is_plain_limit(limit) == (j < 6));
    assert(!is_plain_limit(selector) && !is_plain_limit(base));
    let efer = stored(image, Register::Efer);
    assert((efer & (1u64 << 8) != 0) == ((efer / 0x100) % 2 == 1)) by (bit_vector);
    let stored_rights = stored(image, rights);
    let limit_value = loaded(image, limit);
    lemma_filtered(stored_rights, limit_value);
}

proof fn lemma_filtered(stored_rights: u64, limit: u64)
    ensures
        ({
            let raw = stored_rights / 0x100;
            filtered_rights(stored_rights >> 8, limit) == if (raw / 0x80) % 2 == 0 {
                0x10000
            } else if (raw / 0x8000) % 2 == 1 && limit % 4096 != 4095 {
                raw - 0x8000
            } else {
                raw as int
            }
        }),
{
    assert(stored_rights >> 8 == stored_rights / 0x100) by (bit_vector);
    let raw = stored_rights / 0x100;
    assert((raw & (1u64 << 7) == 0) == ((raw / 0x80) % 2 == 0)) by (bit_vector);
    assert((limit & 0xfff != 0xfff) == (limit % 4096 != 4095)) by (bit_vector);
    assert(raw & !(1u64 << 15) == if (raw / 0x8000) % 2 == 1 {
        raw - 0x8000
    } else {
        raw as int
    }) by (bit_vector);
    assert(0x10000u64 & !(1u64 << 15) == 0x10000u64) by (bit_vector);
}

/// The master of a snapshot has the registers of the file and, byte by byte, its
/// floating-point state. It has written nothing, and no worker has its identifier.
pub proof fn law_loaded_master<C>(master: &Worker<C>, memory: Vec<u8>, rng: Rng)
    requires
        memory@.len() >= 1104,
        is_loaded(*master, memory, rng),
    ensures
        forall|r: Register| #[trigger] master.vm.guest_regs@[r] == loaded(memory@, r),
        forall|i: int|
            0 <= i < 512 ==> #[trigger] master.vm.guest_regs.fxsave.bytes@[i] == memory@[592 + i],
        forall|p: u64| !(#[trigger] master.vm.ept@.contains_key(p)),
        master.master is None,
        master.session is None,
        master.fuzz_input is None,
        master.worker_id == u64::MAX,
        master.rng == rng,
        master.network_mem matches Some(backing) && backing.memory == memory,
{
}

} // verus!
