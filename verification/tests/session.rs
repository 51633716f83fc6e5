use std::sync::Arc;
use snapshotted_app::case::{CaseAction, CaseEvent, CasePhase, FuzzCase, STATISTIC_SYNC_INTERVAL};
use snapshotted_app::coverage::CoverageRecord;
use snapshotted_app::dump::{check_falkdump, DumpError};
use snapshotted_app::exits::MSR_KERNEL_GS_BASE;
use snapshotted_app::page::PhysAddr;
use snapshotted_app::regs::Register;
use snapshotted_app::rng::Rng;
use snapshotted_app::session::{
    init_if_unshared, FuzzSession, LoginAction, LoginEvent, ServerMessage, LOGIN_TIMEOUT,
};
use snapshotted_app::stats::Statistics;
use snapshotted_app::vm::{Exception, VmExit};
use snapshotted_app::worker::{Module, Worker};

type Session = FuzzSession<u32, u8, u8>;

fn put(image: &mut Vec<u8>, at: usize, bytes: &[u8]) {
    image[at..at + bytes.len()].copy_from_slice(bytes);
}

/// A snapshot of a guest in long mode with the memory from 0x4000 to 0x5fff,
/// which stands at page 1 of the file.
fn image() -> Vec<u8> {
    let mut image = vec![0u8; 3 * 4096];
    put(&mut image, 0, b"FALKDUMP");
    put(&mut image, 8, &1088u64.to_le_bytes());
    // General purpose registers, the program counter and the flags
    for i in 0..18u64 {
        put(&mut image, 24 + 8 * i as usize, &(0x1000 + i).to_le_bytes());
    }
    // Segments: selector, limit, access rights and base
    for i in 0..8u64 {
        let at = 16 + 152 + 24 * i as usize;
        put(&mut image, at, &(0x10 + i as u32).to_le_bytes());
        put(&mut image, at + 4, &0xffff_ffffu32.to_le_bytes());
        put(&mut image, at + 8, &0x00cf_9300u32.to_le_bytes());
        put(&mut image, at + 16, &(0x2000 + i).to_le_bytes());
    }
    // The third segment is not present
    put(&mut image, 16 + 152 + 48 + 8, &0x00cf_1300u32.to_le_bytes());
    put(&mut image, 16 + 348, &0x57u32.to_le_bytes());
    put(&mut image, 16 + 360, &0xaaaau64.to_le_bytes());
    put(&mut image, 16 + 372, &0xfffu32.to_le_bytes());
    put(&mut image, 16 + 384, &0xbbbbu64.to_le_bytes());
    put(&mut image, 16 + 392, &0x8000_0001u64.to_le_bytes());
    for i in 0..13u64 {
        put(&mut image, 16 + 408 + 8 * i as usize, &(0x3000 + i).to_le_bytes());
    }
    put(&mut image, 16 + 504, &0x500u64.to_le_bytes());
    put(&mut image, 16 + 568, &0x400u64.to_le_bytes());
    for i in 0..512 {
        image[16 + 576 + i] = i as u8;
    }
    put(&mut image, 1104, &1u64.to_le_bytes());
    put(&mut image, 1112, &0x4000u64.to_le_bytes());
    put(&mut image, 1120, &0x5fffu64.to_le_bytes());
    put(&mut image, 1128, &4096u64.to_le_bytes());
    for i in 4096..image.len() {
        image[i] = (i / 3) as u8;
    }
    image
}

fn session() -> Session {
    assert_eq!(check_falkdump(&image()), Ok(()));
    FuzzSession::from_falkdump(image(), Rng { seed: 1 }, 77)
}

#[test]
fn dump_registers_are_loaded() {
    let mut s = session();
    let w = s.worker(Rng { seed: 1 });
    let gprs = [
        Register::Rax, Register::Rbx, Register::Rcx, Register::Rdx, Register::Rsi, Register::Rdi,
        Register::Rsp, Register::Rbp, Register::R8, Register::R9, Register::R10, Register::R11,
        Register::R12, Register::R13, Register::R14, Register::R15, Register::Rip,
        Register::Rflags,
    ];
    for (i, r) in gprs.iter().enumerate() {
        assert_eq!(w.vm.reg(*r), 0x1000 + i as u64);
    }
    let bases = [
        Register::CsBase, Register::DsBase, Register::EsBase, Register::FsBase, Register::GsBase,
        Register::SsBase, Register::LdtrBase, Register::TrBase,
    ];
    for (i, r) in bases.iter().enumerate() {
        assert_eq!(w.vm.reg(*r), 0x2000 + i as u64);
    }
    assert_eq!(w.vm.reg(Register::Cs), 0x10);
    assert_eq!(w.vm.reg(Register::Tr), 0x17);
    assert_eq!(w.vm.reg(Register::GdtrLimit), 0x57);
    assert_eq!(w.vm.reg(Register::GdtrBase), 0xaaaa);
    assert_eq!(w.vm.reg(Register::IdtrLimit), 0xfff);
    assert_eq!(w.vm.reg(Register::IdtrBase), 0xbbbb);
    assert_eq!(w.vm.reg(Register::Cr0), 0x8000_0001);
    let rest = [
        Register::Cr2, Register::Cr3, Register::Cr4, Register::KernelGsBase, Register::Cr8,
        Register::CStar, Register::LStar, Register::FMask, Register::Star, Register::SysenterCs,
        Register::SysenterEsp, Register::SysenterEip,
    ];
    for (i, r) in rest.iter().enumerate() {
        let value = 0x3000 + i as u64;
        let expected = if *r == Register::Cr4 { value | 0x2000 } else { value };
        assert_eq!(w.vm.reg(*r), expected);
    }
    assert_eq!(w.vm.reg(Register::Efer), 0x500);
    assert_eq!(w.vm.reg(Register::Dr7), 0x400);
    assert_eq!(w.vm.guest_regs.fxsave.bytes[3], 3);
    assert_eq!(w.vm.guest_regs.fxsave.bytes[511], 255);
}

#[test]
fn dump_access_rights_are_filtered() {
    let mut s = session();
    let w = s.worker(Rng { seed: 1 });
    // In long mode the limits are zero, and with them the granularity
    assert_eq!(w.vm.reg(Register::CsLimit), 0);
    assert_eq!(w.vm.reg(Register::CsAccessRights), 0x4f93);
    // A segment that is not present is inactive
    assert_eq!(w.vm.reg(Register::EsAccessRights), 0x10000);
    assert_eq!(w.vm.reg(Register::LdtrLimit), 0xffff_ffff);
    assert_eq!(w.vm.reg(Register::LdtrAccessRights), 0xcf93);
    // Outside of long mode the limits stay
    let mut protected = image();
    put(&mut protected, 16 + 504, &0u64.to_le_bytes());
    let mut s: Session = FuzzSession::from_falkdump(protected, Rng { seed: 1 }, 1);
    let w = s.worker(Rng { seed: 1 });
    assert_eq!(w.vm.reg(Register::CsLimit), 0xffff_ffff);
    assert_eq!(w.vm.reg(Register::CsAccessRights), 0xcf93);
}

#[test]
fn dump_errors() {
    let mut wrong = image();
    wrong[0] = b'f';
    assert_eq!(check_falkdump(&wrong), Err(DumpError::Signature));
    assert_eq!(check_falkdump(&[]), Err(DumpError::Signature));
    assert_eq!(check_falkdump(b"FALKDUMP"), Err(DumpError::Truncated));
    assert_eq!(check_falkdump(&image()[..1135]), Err(DumpError::Truncated));
    assert_eq!(check_falkdump(&image()[..1136]), Ok(()));
    let mut wrong = image();
    put(&mut wrong, 8, &1080u64.to_le_bytes());
    put(&mut wrong, 1096, &0u64.to_le_bytes());
    assert_eq!(check_falkdump(&wrong), Err(DumpError::Registers));
    put(&mut wrong, 8, &u64::MAX.to_le_bytes());
    assert_eq!(check_falkdump(&wrong), Err(DumpError::Truncated));
    for (at, value) in [(1112, 0x4001u64), (1120, 0x5ffe), (1120, 0x3fff)] {
        let mut wrong = image();
        put(&mut wrong, at, &value.to_le_bytes());
        assert_eq!(check_falkdump(&wrong), Err(DumpError::Region));
    }
    let mut many = image();
    put(&mut many, 1104, &u64::MAX.to_le_bytes());
    assert!(check_falkdump(&many).is_err());
}

#[test]
fn forks_see_the_snapshot() {
    let mut s = session();
    let mut w = s.worker(Rng { seed: 1 });
    let file = image();
    let mut memory = vec![0u8; 8192];
    assert_eq!(w.read_phys_into(PhysAddr(0x4000), &mut memory), Some(()));
    assert_eq!(memory, file[4096..].to_vec());
    assert_eq!(w.read_phys::<u8>(PhysAddr(0x3fff)), None);
    assert_eq!(w.read_phys::<u8>(PhysAddr(0x6000)), None);
}

#[test]
fn master_is_set_up_before_workers_share_it() {
    let s = session().init_master_vm(|m: &mut Worker<u32>| m.vm.set_reg(Register::Rax, 4));
    let mut s = match s {
        Ok(s) => s,
        Err(_) => panic!("shared"),
    };
    let w = s.worker(Rng { seed: 1 });
    assert_eq!(w.vm.reg(Register::Rax), 4);
    // A worker shares the master, which then cannot be changed
    let mut s = match s.init_master_vm(|m: &mut Worker<u32>| m.vm.set_reg(Register::Rax, 5)) {
        Ok(_) => panic!("not shared"),
        Err(s) => s,
    };
    assert_eq!(s.worker(Rng { seed: 1 }).vm.reg(Register::Rax), 4);
    drop(w);
    let mut s = match s.init_master_vm(|m: &mut Worker<u32>| m.vm.set_reg(Register::Rax, 6)) {
        Ok(s) => s,
        Err(_) => panic!("shared"),
    };
    assert_eq!(s.worker(Rng { seed: 1 }).vm.reg(Register::Rax), 6);
}

#[test]
fn session_is_configured() {
    let mut s = session().timeout(9).inject(1).vmexit_filter(2).global_context(3);
    assert_eq!((s.timeout, s.inject, s.vmexit_filter), (Some(9), Some(1), Some(2)));
    let first = s.worker(Rng { seed: 5 });
    let second = s.worker(Rng { seed: 6 });
    assert_eq!((first.worker_id, second.worker_id), (0, 1));
    assert_eq!((first.session, second.session), (Some(77), Some(77)));
    assert_eq!(s.workers, 2);
    assert_eq!(second.global_context.as_deref(), Some(&3));
    assert_eq!(second.rng.seed, 6);
    assert_eq!(first.fuzz_input, Some(Vec::new()));
}

#[test]
fn login_is_repeated_until_acknowledged() {
    let s = session();
    let send = LoginAction::Send { message: ServerMessage::Login(77, 3), timeout: LOGIN_TIMEOUT };
    assert_eq!(LOGIN_TIMEOUT, 50_000);
    assert_eq!(s.login(3, LoginEvent::Start), send);
    assert_eq!(s.login(3, LoginEvent::Timeout), send);
    let got = |m: ServerMessage| s.login(3, LoginEvent::Message(m));
    assert_eq!(got(ServerMessage::LoginAck(77, 4)), LoginAction::Wait);
    assert_eq!(got(ServerMessage::LoginAck(76, 3)), LoginAction::Wait);
    assert_eq!(got(ServerMessage::Login(77, 3)), LoginAction::Wait);
    assert_eq!(got(ServerMessage::Other), LoginAction::Wait);
    assert_eq!(got(ServerMessage::LoginAck(77, 3)), LoginAction::Complete);
}

#[test]
fn coverage_is_new_once() {
    let mut s = session();
    let record = |name: Option<&str>, offset: u64| CoverageRecord {
        module: name.map(|n| Arc::new(String::from(n))),
        offset,
    };
    assert!(s.report_coverage(&record(Some("a"), 1)));
    assert!(s.report_coverage(&record(Some("a"), 2)));
    assert!(s.report_coverage(&record(Some("b"), 1)));
    assert!(s.report_coverage(&record(None, 1)));
    assert!(!s.report_coverage(&record(Some("a"), 1)));
    assert!(!s.report_coverage(&record(None, 1)));
    assert_eq!(s.pending_coverage.len(), 4);
    assert_eq!(s.pending_coverage[2].offset, 1);
    assert_eq!(s.pending_coverage[2].module.as_ref().unwrap().as_str(), "b");
}

#[test]
fn inputs_are_kept_once() {
    let mut s = session();
    let mut w = s.worker(Rng { seed: 7 });
    assert_eq!(w.rand_input(&s), None);
    assert_eq!(w.rng.seed, 7);
    for input in [vec![1], vec![1, 2], vec![1], vec![], vec![1, 3]] {
        s.keep_input(&input);
    }
    assert_eq!(s.inputs, vec![vec![1], vec![1, 2], vec![], vec![1, 3]]);
    assert_eq!(w.rand_input(&s), Some(&[1u8, 3][..]));
    assert_ne!(w.rng.seed, 7);
}

#[test]
fn statistics_are_reported() {
    let mut s = session();
    s.stats = Statistics { fuzz_cases: 1, reset_cycles: 2, total_cycles: 3, vm_cycles: 4, vmexits: 5 };
    let message = ServerMessage::ReportStatistics {
        fuzz_cases: 1,
        total_cycles: 3,
        vm_cycles: 4,
        reset_cycles: 2,
    };
    assert_eq!(s.report_statistics(), message);
}

#[test]
fn model_specific_registers_are_emulated() {
    let mut s = session();
    let mut w = s.worker(Rng { seed: 1 });
    w.vm.set_reg(Register::Rcx, MSR_KERNEL_GS_BASE);
    w.vm.set_reg(Register::KernelGsBase, 0x1234_5678_9abc_def0);
    w.vm.set_reg(Register::Rip, u64::MAX);
    assert!(w.is_expected(VmExit::ReadMsr { inst_len: 2 }));
    assert!(w.emulate(VmExit::ReadMsr { inst_len: 2 }));
    assert_eq!(w.vm.reg(Register::Rax), 0x9abc_def0);
    assert_eq!(w.vm.reg(Register::Rdx), 0x1234_5678);
    assert_eq!(w.vm.reg(Register::Rip), 1);
    w.vm.set_reg(Register::KernelGsBase, 0);
    assert!(w.emulate(VmExit::WriteMsr { inst_len: 2 }));
    assert_eq!(w.vm.reg(Register::KernelGsBase), 0x1234_5678_9abc_def0);
    assert_eq!(w.vm.reg(Register::Rip), 3);
    w.vm.set_reg(Register::Rcx, 0x10);
    assert!(!w.is_expected(VmExit::ReadMsr { inst_len: 2 }));
    assert!(!w.is_expected(VmExit::WriteMsr { inst_len: 2 }));
}

#[test]
fn control_registers_are_emulated() {
    let mut s = session();
    let mut w = s.worker(Rng { seed: 1 });
    let gprs = [
        Register::Rax, Register::Rcx, Register::Rdx, Register::Rbx, Register::Rsp, Register::Rbp,
        Register::Rsi, Register::Rdi, Register::R8, Register::R9, Register::R10, Register::R11,
        Register::R12, Register::R13, Register::R14, Register::R15,
    ];
    for (cr, control) in [(0, Register::Cr0), (3, Register::Cr3), (4, Register::Cr4)] {
        for (gpr, general) in gprs.iter().enumerate() {
            let gpr = gpr as u64;
            let value = 0x100 * cr + gpr;
            let rip = w.vm.reg(Register::Rip);
            w.vm.set_reg(*general, value);
            assert!(w.is_expected(VmExit::WriteCr { cr, gpr, inst_len: 3 }));
            assert!(w.emulate(VmExit::WriteCr { cr, gpr, inst_len: 3 }));
            assert_eq!(w.vm.reg(control), value);
            w.vm.set_reg(*general, 0);
            assert!(w.emulate(VmExit::ReadCr { cr, gpr, inst_len: 4 }));
            assert_eq!(w.vm.reg(*general), value);
            assert_eq!(w.vm.reg(Register::Rip), rip + 7);
        }
    }
    assert!(!w.is_expected(VmExit::WriteCr { cr: 2, gpr: 0, inst_len: 3 }));
    assert!(!w.is_expected(VmExit::ReadCr { cr: 0, gpr: 16, inst_len: 3 }));
    assert!(!w.emulate(VmExit::Other(9)));
}

fn enter(w: &mut Worker<u32>, s: &mut Session, case: &mut FuzzCase) {
    let start = CaseEvent::Start { fuzz_start: 100, reset_start: 110 };
    assert_eq!(w.fuzz_case(s, case, start), CaseAction::ResetVm);
    assert_eq!(w.fuzz_case(s, case, CaseEvent::Reset { now: 150 }), CaseAction::ReadClock);
    assert_eq!(w.fuzz_case(s, case, CaseEvent::Clock { now: 160 }), CaseAction::Run);
}

#[test]
fn fuzz_case_runs_to_completion() {
    let mut s = session().timeout(500).inject(1).vmexit_filter(2);
    let mut w = s.worker(Rng { seed: 0x1fff });
    let mut case = FuzzCase::new();
    w.vm.set_reg(Register::Rax, 99);
    w.write_phys(PhysAddr(0x4000), 0u64);
    let start = CaseEvent::Start { fuzz_start: 100, reset_start: 110 };
    assert_eq!(w.fuzz_case(&mut s, &mut case, start), CaseAction::ResetVm);
    assert_eq!(w.vm.reg(Register::Rax), 0x1000);
    assert_eq!(w.read_phys::<u8>(PhysAddr(0x4000)), Some((4096 / 3) as u8));
    let mut step = |event: CaseEvent| w.fuzz_case(&mut s, &mut case, event);
    assert_eq!(step(CaseEvent::Reset { now: 150 }), CaseAction::Inject);
    assert_eq!(step(CaseEvent::Injected), CaseAction::ComputeDeadline { timeout: 500 });
    assert_eq!(step(CaseEvent::Deadline { at: 1000 }), CaseAction::ReadClock);
    assert_eq!(step(CaseEvent::Clock { now: 999 }), CaseAction::Run);
    // Memory that is missing at first is mapped, and the guest goes on
    let exit = VmExit::EptViolation { addr: PhysAddr(0x5123), write: true };
    assert_eq!(step(CaseEvent::Exited { exit, cycles: 10 }), CaseAction::ReadClock);
    assert_eq!(step(CaseEvent::Clock { now: 999 }), CaseAction::Run);
    let exit = VmExit::ExternalInterrupt;
    assert_eq!(step(CaseEvent::Exited { exit, cycles: 20 }), CaseAction::ReadClock);
    assert_eq!(step(CaseEvent::Clock { now: 999 }), CaseAction::Run);
    // Memory that does not exist is left to the filter
    let exit = VmExit::EptViolation { addr: PhysAddr(0x9123), write: false };
    assert_eq!(step(CaseEvent::Exited { exit, cycles: 30 }), CaseAction::Filter { exit });
    assert_eq!(step(CaseEvent::Filtered { handled: true }), CaseAction::ReadClock);
    assert_eq!(step(CaseEvent::Clock { now: 999 }), CaseAction::Run);
    let exit = VmExit::Exception(Exception::Other(14));
    assert_eq!(step(CaseEvent::Exited { exit, cycles: 40 }), CaseAction::Filter { exit });
    assert_eq!(step(CaseEvent::Filtered { handled: false }), CaseAction::ReadEndClock);
    let message = ServerMessage::ReportStatistics {
        fuzz_cases: 1,
        total_cycles: 1100,
        vm_cycles: 100,
        reset_cycles: 40,
    };
    let ended = CaseEvent::Ended { now: 1200, sync_now: 1201 };
    assert_eq!(step(ended), CaseAction::Report { message });
    let interval = STATISTIC_SYNC_INTERVAL;
    assert_eq!(step(CaseEvent::Reported), CaseAction::ComputeSync { interval });
    assert_eq!(step(CaseEvent::NextSync { at: 5000 }), CaseAction::Finish { exit });
    assert_eq!(case.phase, CasePhase::Over);
    assert_eq!(w.sync, 5000);
    assert_eq!(w.stats.fuzz_cases, 0);
    assert_eq!(s.stats.vmexits, 4);
    assert!(w.vm.ept.translate(0x5000).unwrap().dirty);
}

#[test]
fn fuzz_case_times_out() {
    let mut s = session().timeout(500);
    s.worker(Rng { seed: 1 });
    let mut w = s.worker(Rng { seed: 1 });
    let mut case = FuzzCase::new();
    let mut step = |event: CaseEvent| w.fuzz_case(&mut s, &mut case, event);
    step(CaseEvent::Start { fuzz_start: 1, reset_start: 1 });
    assert_eq!(step(CaseEvent::Reset { now: 2 }), CaseAction::ComputeDeadline { timeout: 500 });
    step(CaseEvent::Deadline { at: 1000 });
    assert_eq!(step(CaseEvent::Clock { now: 1000 }), CaseAction::ReadEndClock);
    // The second worker syncs, but does not report
    let interval = 100_000;
    let ended = CaseEvent::Ended { now: 1200, sync_now: 1201 };
    assert_eq!(step(ended), CaseAction::ComputeSync { interval });
    let exit = VmExit::Timeout;
    assert_eq!(step(CaseEvent::NextSync { at: 9999 }), CaseAction::Finish { exit });
    // Before the next sync is due the statistics stay with the worker
    let mut case = FuzzCase::new();
    enter_again(&mut w, &mut s, &mut case);
    assert_eq!(w.stats.fuzz_cases, 1);
    assert_eq!(s.stats.fuzz_cases, 1);
}

fn enter_again(w: &mut Worker<u32>, s: &mut Session, case: &mut FuzzCase) {
    s.timeout = None;
    enter(w, s, case);
    let exit = VmExit::Other(3);
    let exited = CaseEvent::Exited { exit, cycles: 1 };
    assert_eq!(w.fuzz_case(s, case, exited), CaseAction::ReadEndClock);
    let ended = CaseEvent::Ended { now: 1300, sync_now: 9998 };
    assert_eq!(w.fuzz_case(s, case, ended), CaseAction::Finish { exit });
}

#[test]
fn new_coverage_starts_single_stepping() {
    let mut s = session();
    let mut w = s.worker(Rng { seed: 0x12345 });
    w.module_list.insert(0x1000, Module { end: 0x1fff, name: Arc::new(String::from("m")) });
    let mut case = FuzzCase::new();
    enter(&mut w, &mut s, &mut case);
    assert_eq!(w.vm.preemption_timer, Some(0x345));
    assert_eq!(w.vm.reg(Register::Rflags) & 0x100, 0);
    w.fuzz_input = Some(vec![4, 2]);
    let sample = CaseEvent::Exited { exit: VmExit::PreemptionTimer, cycles: 1 };
    assert_eq!(w.fuzz_case(&mut s, &mut case, sample), CaseAction::ReadClock);
    assert_eq!(case.single_step, 1000);
    assert_eq!(s.inputs, vec![vec![4, 2]]);
    assert_eq!(s.pending_coverage[0].module.as_ref().unwrap().as_str(), "m");
    assert_eq!(s.pending_coverage[0].offset, 0x10);
    // The same place is not new, so that the steps run out
    let debug = VmExit::Exception(Exception::DebugException);
    for i in 0..1000u32 {
        assert_eq!(w.fuzz_case(&mut s, &mut case, CaseEvent::Clock { now: 0 }), CaseAction::Run);
        assert_eq!(w.vm.reg(Register::Rflags) & 0x100, 0x100);
        assert_eq!(case.single_step, 999 - i);
        let exited = CaseEvent::Exited { exit: debug, cycles: 1 };
        assert_eq!(w.fuzz_case(&mut s, &mut case, exited), CaseAction::ReadClock);
    }
    assert_eq!(w.fuzz_case(&mut s, &mut case, CaseEvent::Clock { now: 0 }), CaseAction::Run);
    assert_eq!(w.vm.reg(Register::Rflags) & 0x100, 0);
    // Elsewhere it starts again, and the input is kept once
    w.vm.set_reg(Register::Rip, 0x5555);
    let exited = CaseEvent::Exited { exit: debug, cycles: 1 };
    assert_eq!(w.fuzz_case(&mut s, &mut case, exited), CaseAction::ReadClock);
    assert_eq!(case.single_step, 1000);
    assert_eq!(s.inputs.len(), 1);
    assert_eq!(s.pending_coverage[1].offset, 0x5555);
    assert!(s.pending_coverage[1].module.is_none());
}

#[test]
fn fuzz_cases_start_alike() {
    let mut s = session();
    let mut a = s.worker(Rng { seed: 1 });
    let mut b = s.worker(Rng { seed: 2 });
    a.write_phys(PhysAddr(0x4ffc), u64::MAX);
    a.vm.set_reg(Register::Cr3, 1);
    b.write_phys(PhysAddr(0x5000), 1u8);
    let mut case = FuzzCase::new();
    enter(&mut a, &mut s, &mut case);
    let mut case = FuzzCase::new();
    enter(&mut b, &mut s, &mut case);
    assert_eq!(a.vm.reg(Register::Cr3), b.vm.reg(Register::Cr3));
    let mut left = vec![0u8; 8192];
    let mut right = vec![0u8; 8192];
    a.read_phys_into(PhysAddr(0x4000), &mut left);
    b.read_phys_into(PhysAddr(0x4000), &mut right);
    assert_eq!(left, right);
    assert_eq!(left, image()[4096..].to_vec());
}

#[test]
fn without_a_timeout_the_clock_can_only_run_out() {
    let mut s = session();
    let mut w = s.worker(Rng { seed: 1 });
    let mut case = FuzzCase::new();
    enter(&mut w, &mut s, &mut case);
    let exited = CaseEvent::Exited { exit: VmExit::ExternalInterrupt, cycles: 1 };
    w.fuzz_case(&mut s, &mut case, exited);
    let clock = CaseEvent::Clock { now: u64::MAX };
    assert_eq!(w.fuzz_case(&mut s, &mut case, clock), CaseAction::ReadEndClock);
    assert_eq!(case.phase, CasePhase::Ending { exit: VmExit::Timeout });
}

#[test]
fn steps_take_what_the_case_waits_for() {
    let mut s = session();
    let mut w = s.worker(Rng { seed: 1 });
    let mut case = FuzzCase::new();
    let start = CaseEvent::Start { fuzz_start: 100, reset_start: 110 };
    assert!(w.is_due(&s, &case, start));
    assert!(!w.is_due(&s, &case, CaseEvent::Clock { now: 1 }));
    let other: Session = FuzzSession::from_falkdump(image(), Rng { seed: 1 }, 78);
    assert!(!w.is_due(&other, &case, start));
    w.fuzz_case(&mut s, &mut case, start);
    assert!(!w.is_due(&s, &case, CaseEvent::Reset { now: 109 }));
    assert!(w.is_due(&s, &case, CaseEvent::Reset { now: 110 }));
    w.stats.reset_cycles = u64::MAX;
    assert!(!w.is_due(&s, &case, CaseEvent::Reset { now: 111 }));
    w.stats.reset_cycles = 0;
    w.fuzz_case(&mut s, &mut case, CaseEvent::Reset { now: 111 });
    w.fuzz_case(&mut s, &mut case, CaseEvent::Clock { now: 112 });
    let unexpected = VmExit::ReadCr { cr: 1, gpr: 0, inst_len: 1 };
    assert!(!w.is_due(&s, &case, CaseEvent::Exited { exit: unexpected, cycles: 1 }));
    let exit = VmExit::Other(1);
    assert!(w.is_due(&s, &case, CaseEvent::Exited { exit, cycles: 1 }));
    w.fuzz_case(&mut s, &mut case, CaseEvent::Exited { exit, cycles: 1 });
    assert!(!w.is_due(&s, &case, CaseEvent::Ended { now: 99, sync_now: 99 }));
    let ended = CaseEvent::Ended { now: 200, sync_now: 200 };
    assert!(w.is_due(&s, &case, ended));
    s.stats.fuzz_cases = u64::MAX;
    assert!(!w.is_due(&s, &case, ended));
    w.sync = 201;
    assert!(w.is_due(&s, &case, ended));
}

#[test]
fn statistics_add_up_over_a_sync() {
    let mut s = session();
    s.stats.vm_cycles = 1000;
    let mut w = s.worker(Rng { seed: 1 });
    w.stats.vm_cycles = 500;
    let mut case = FuzzCase::new();
    enter(&mut w, &mut s, &mut case);
    let exited = CaseEvent::Exited { exit: VmExit::Other(1), cycles: 25 };
    w.fuzz_case(&mut s, &mut case, exited);
    assert_eq!((s.stats.vm_cycles, w.stats.vm_cycles), (1000, 525));
    let ended = CaseEvent::Ended { now: 200, sync_now: 200 };
    w.fuzz_case(&mut s, &mut case, ended);
    assert_eq!((s.stats.vm_cycles, w.stats.vm_cycles), (1525, 0));
    assert_eq!((s.stats.total_cycles, s.stats.reset_cycles, s.stats.vmexits), (100, 40, 1));
}

#[test]
fn written_model_specific_registers_are_read_back() {
    let mut s = session();
    let mut w = s.worker(Rng { seed: 1 });
    let mut case = FuzzCase::new();
    enter(&mut w, &mut s, &mut case);
    w.vm.set_reg(Register::Rcx, MSR_KERNEL_GS_BASE);
    w.vm.set_reg(Register::Rax, 0x9abc_def0);
    w.vm.set_reg(Register::Rdx, 0x1234_5678);
    let rip = w.vm.reg(Register::Rip);
    let write = CaseEvent::Exited { exit: VmExit::WriteMsr { inst_len: 2 }, cycles: 1 };
    assert_eq!(w.fuzz_case(&mut s, &mut case, write), CaseAction::ReadClock);
    assert_eq!(w.vm.reg(Register::KernelGsBase), 0x1234_5678_9abc_def0);
    assert_eq!(w.fuzz_case(&mut s, &mut case, CaseEvent::Clock { now: 0 }), CaseAction::Run);
    w.vm.set_reg(Register::Rax, 0);
    w.vm.set_reg(Register::Rdx, 0);
    let read = CaseEvent::Exited { exit: VmExit::ReadMsr { inst_len: 3 }, cycles: 1 };
    assert_eq!(w.fuzz_case(&mut s, &mut case, read), CaseAction::ReadClock);
    assert_eq!(w.vm.reg(Register::Rax), 0x9abc_def0);
    assert_eq!(w.vm.reg(Register::Rdx), 0x1234_5678);
    assert_eq!(w.vm.reg(Register::Rip), rip + 5);
}

#[test]
fn only_a_master_at_hand_is_set_up() {
    let mut s = session();
    let mut w = s.worker(Rng { seed: 1 });
    assert!(init_if_unshared(Some(&mut w), |m: &mut Worker<u32>| m.sync = 9));
    assert_eq!(w.sync, 9);
    assert!(!init_if_unshared(None, |m: &mut Worker<u32>| m.sync = 10));
    assert_eq!(w.sync, 9);
}

#[test]
fn injection_comes_once_and_first() {
    let mut s = session().inject(1);
    let mut w = s.worker(Rng { seed: 1 });
    w.vm.set_reg(Register::Rbx, 1);
    w.write_phys(PhysAddr(0x4000), u64::MAX);
    let mut case = FuzzCase::new();
    let start = CaseEvent::Start { fuzz_start: 1, reset_start: 1 };
    let mut actions = vec![w.fuzz_case(&mut s, &mut case, start)];
    actions.push(w.fuzz_case(&mut s, &mut case, CaseEvent::Reset { now: 2 }));
    assert_eq!(actions, vec![CaseAction::ResetVm, CaseAction::Inject]);
    assert_eq!(w.vm.reg(Register::Rbx), 0x1001);
    assert_eq!(w.read_phys::<u8>(PhysAddr(0x4000)), Some((4096 / 3) as u8));
    for event in [
        CaseEvent::Injected,
        CaseEvent::Clock { now: 3 },
        CaseEvent::Exited { exit: VmExit::Other(4), cycles: 8 },
        CaseEvent::Ended { now: 9, sync_now: 9 },
        CaseEvent::Reported,
        CaseEvent::NextSync { at: 20 },
    ] {
        let action = w.fuzz_case(&mut s, &mut case, event);
        assert_ne!(action, CaseAction::Inject);
        actions.push(action);
    }
    assert_eq!(actions.last(), Some(&CaseAction::Finish { exit: VmExit::Other(4) }));
    assert_eq!((s.stats.fuzz_cases, s.stats.vmexits, s.stats.vm_cycles), (1, 1, 8));
}
