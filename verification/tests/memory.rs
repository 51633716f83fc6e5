use std::sync::Arc;
use snapshotted_app::access::{
    AccessStep, Address, MemAccess, PagingMode, Segment, WalkRequest, Walked,
};
use snapshotted_app::addr_map::AddrMap;
use snapshotted_app::page::{PhysAddr, VirtAddr};
use snapshotted_app::regs::Register;
use snapshotted_app::rng::Rng;
use snapshotted_app::snapshot::{NetBacking, PhysRange};
use snapshotted_app::worker::Worker;

/// Two regions: 0x0 to 0x1fff at page 1 of the image, 0x10000 to 0x10fff at page
/// 3. Byte `i` of page `p` of the image is `16 * p + i`.
fn backing() -> NetBacking {
    let mut memory = vec![0u8; 4 * 4096];
    for (i, b) in memory.iter_mut().enumerate() {
        *b = (16 * (i / 4096) + i % 4096) as u8;
    }
    let mut phys_ranges = AddrMap::new();
    phys_ranges.insert(0, PhysRange { offset: 4096, end: 0x1fff });
    phys_ranges.insert(0x10000, PhysRange { offset: 3 * 4096, end: 0x10fff });
    NetBacking { memory, phys_ranges }
}

fn master() -> Worker<()> {
    Worker::from_net(Arc::new(backing()), Rng { seed: 1 })
}

fn fork() -> Worker<()> {
    Worker::fork(1, None, Arc::new(master()), 0, Rng { seed: 1 })
}

#[test]
fn snapshot_pages_are_found_by_region() {
    let b = backing();
    assert_eq!(b.get(0).unwrap()[0], 16);
    assert_eq!(b.get(0x1000).unwrap()[1], 33);
    assert_eq!(b.get(0x10000).unwrap()[0], 48);
    assert!(b.get(0x2000).is_none());
    assert!(b.get(0xf000).is_none());
    assert!(b.get(0x11000).is_none());
    assert!(b.aligned(0x1000));
}

#[test]
fn snapshot_region_past_the_image_is_missing() {
    let mut b = backing();
    b.phys_ranges.insert(0x20000, PhysRange { offset: 3 * 4096, end: 0x21fff });
    assert!(b.get(0x20000).is_some());
    assert!(b.get(0x21000).is_none());
    b.phys_ranges.insert(0x30000, PhysRange { offset: u64::MAX - 4095, end: 0x31fff });
    assert!(b.get(0x30000).is_none());
    assert!(b.get(0x31000).is_none());
    b.phys_ranges.insert(0x40000, PhysRange { offset: 1, end: 0x40fff });
    assert!(!b.aligned(0x40000));
}

#[test]
fn translate_gives_the_place_on_the_page() {
    let mut w = fork();
    assert_eq!(w.translate(PhysAddr(0x1337), false), Some(0x337));
    assert_eq!(w.translate(PhysAddr(0x1337), true), Some(0x337));
    assert_eq!(w.translate(PhysAddr(0x13371337), true), None);
}

#[test]
fn translate_maps_and_copies_on_write() {
    let mut w = fork();
    w.translate(PhysAddr(0x10), false);
    {
        let page = w.vm.ept.translate(0).unwrap();
        assert!(page.copy.is_none());
        assert!(page.flags.read && !page.flags.write && page.flags.execute);
        assert!(page.flags.user_execute && page.flags.write_back);
        assert!(!page.dirty);
    }
    w.translate(PhysAddr(0x20), true);
    {
        let page = w.vm.ept.translate(0).unwrap();
        assert_eq!(page.copy.as_ref().unwrap()[0], 16);
        assert!(page.flags.write && !page.flags.write_back && page.dirty);
    }
    w.translate(PhysAddr(0x1020), true);
    {
        let page = w.vm.ept.translate(0x1000).unwrap();
        assert!(page.flags.write && page.flags.write_back && page.dirty);
    }
}

#[test]
fn write_is_read_back() {
    let mut w = fork();
    let data: Vec<u8> = (0..100).map(|i| 200 - i as u8).collect();
    assert_eq!(w.write_phys_from(PhysAddr(0xfd0), &data), Some(()));
    let mut buf = vec![0u8; 100];
    assert_eq!(w.read_phys_into(PhysAddr(0xfd0), &mut buf), Some(()));
    assert_eq!(buf, data);
    // Around the write memory is as it was
    assert_eq!(w.read_phys::<u8>(PhysAddr(0xfcf)), Some((16 + 0xfcf) as u8));
    assert_eq!(w.read_phys::<u8>(PhysAddr(0x1034)), Some((32 + 0x34) as u8));
}

#[test]
fn primitives_are_read_back() {
    let mut w = fork();
    assert_eq!(w.write_phys(PhysAddr(0xffc), 0x1122334455667788u64), Some(()));
    assert_eq!(w.read_phys::<u64>(PhysAddr(0xffc)), Some(0x1122334455667788));
    assert_eq!(w.read_phys::<u16>(PhysAddr(0x1000)), Some(0x3344));
    assert_eq!(w.write_phys(PhysAddr(0x10), -2i32), Some(()));
    assert_eq!(w.read_phys::<i32>(PhysAddr(0x10)), Some(-2));
    assert_eq!(w.read_phys::<u32>(PhysAddr(0x1ffe)), None);
}

#[test]
fn partial_accesses_stop_at_the_missing_page() {
    let mut w = fork();
    let mut buf = vec![0xeeu8; 8];
    assert_eq!(w.read_phys_into(PhysAddr(0x1ffc), &mut buf), None);
    let tail: Vec<u8> = (0..4).map(|i| (32 + 0xffc + i) as u8).collect();
    assert_eq!(&buf[..4], &tail[..]);
    assert_eq!(&buf[4..], &[0xee; 4]);
    assert_eq!(w.write_phys_from(PhysAddr(0x1ffe), &[1, 2, 3, 4]), None);
    assert_eq!(w.read_phys::<u16>(PhysAddr(0x1ffe)), Some(0x0201));
    assert_eq!(w.present(0x1ffc, 8), Some(4));
    assert_eq!(w.present(0x5000, 8), Some(0));
    let mut none: Vec<u8> = Vec::new();
    assert_eq!(w.read_phys_into(PhysAddr(0x5000), &mut none), Some(()));
}

#[test]
fn present_reports_misplaced_pages() {
    let mut b = backing();
    b.phys_ranges.insert(0x2000, PhysRange { offset: 5, end: 0x2fff });
    let w: Worker<()> = Worker::from_net(Arc::new(b), Rng { seed: 1 });
    assert_eq!(w.present(0x1ff0, 16), Some(16));
    assert_eq!(w.present(0x1ff0, 17), None);
    assert!(!w.page_aligned(0x2000));
    assert!(w.page_aligned(0x3000));
}

#[test]
fn workers_do_not_see_each_others_writes() {
    let shared = Arc::new(master());
    let mut a: Worker<()> = Worker::fork(1, None, shared.clone(), 0, Rng { seed: 1 });
    let mut b: Worker<()> = Worker::fork(1, None, shared.clone(), 1, Rng { seed: 1 });
    assert_eq!(a.write_phys(PhysAddr(0x100), 0xffffu16), Some(()));
    assert_eq!(a.read_phys::<u16>(PhysAddr(0x100)), Some(0xffff));
    assert_eq!(b.read_phys::<u16>(PhysAddr(0x100)), Some(0x1110));
    assert_eq!(shared.get_page(PhysAddr(0)).unwrap()[0x100], 0x10);
}

#[test]
fn forks_see_what_the_master_wrote() {
    let mut m = master();
    assert_eq!(m.write_phys(PhysAddr(0x10008), 0x77u8), Some(()));
    m.vm.set_reg(Register::Rbx, 9);
    let mut w: Worker<()> = Worker::fork(1, None, Arc::new(m), 5, Rng { seed: 1 });
    assert_eq!(w.read_phys::<u8>(PhysAddr(0x10008)), Some(0x77));
    assert_eq!(w.vm.reg(Register::Rbx), 9);
    assert_eq!(w.worker_id, 5);
}

#[test]
fn restart_restores_memory_and_registers() {
    let mut w = fork();
    w.vm.set_reg(Register::Rax, 5);
    w.write_phys(PhysAddr(0xffe), 0xaaaaaaaau32);
    w.read_phys::<u8>(PhysAddr(0x10000));
    w.restart();
    assert_eq!(w.vm.reg(Register::Rax), 0);
    let mut fresh = fork();
    for page in [0u64, 0x1000, 0x10000] {
        let mut seen = vec![0u8; 4096];
        let mut original = vec![0u8; 4096];
        w.read_phys_into(PhysAddr(page), &mut seen);
        fresh.read_phys_into(PhysAddr(page), &mut original);
        assert_eq!(seen, original);
    }
    for page in [0u64, 0x1000, 0x10000] {
        assert!(!w.vm.ept.translate(page).unwrap().dirty);
    }
    // The copies stay mapped, and can be written and restored again
    w.write_phys(PhysAddr(0xffe), 0xbbu8);
    assert!(w.vm.ept.translate(0).unwrap().dirty);
    w.restart();
    assert_eq!(w.read_phys::<u8>(PhysAddr(0xffe)), Some((16 + 0xffe) as u8));
}

#[test]
fn paging_modes() {
    let mut w = fork();
    assert_eq!(w.paging_mode(), None);
    w.vm.set_reg(Register::Cr4, 1 << 5);
    assert_eq!(w.paging_mode(), None);
    w.vm.set_reg(Register::Cr0, 1 << 31);
    assert_eq!(w.paging_mode(), Some(PagingMode::Bits32Pae));
    w.vm.set_reg(Register::Cr4, 0);
    assert_eq!(w.paging_mode(), Some(PagingMode::Bits32));
    w.vm.set_reg(Register::Efer, 1 << 8);
    assert_eq!(w.paging_mode(), None);
    w.vm.set_reg(Register::Cr4, 1 << 5);
    assert_eq!(w.paging_mode(), Some(PagingMode::Bits64));
}

#[test]
fn segment_bases() {
    let mut w = fork();
    let all = [
        (Segment::Es, Register::EsBase),
        (Segment::Ds, Register::DsBase),
        (Segment::Fs, Register::FsBase),
        (Segment::Gs, Register::GsBase),
        (Segment::Ss, Register::SsBase),
        (Segment::Cs, Register::CsBase),
    ];
    for (i, (_, register)) in all.iter().enumerate() {
        w.vm.set_reg(*register, 100 + i as u64);
    }
    for (i, (segment, _)) in all.iter().enumerate() {
        assert_eq!(w.seg_base(*segment), 100 + i as u64);
    }
}

#[test]
fn physical_accesses_take_one_step() {
    let mut w = fork();
    let mut access = MemAccess::new(Address::PhysicalLinear { addr: 0xffe }, 4);
    let mut buf = [0u8; 4];
    assert_eq!(w.read_addr(&mut access, Walked::NotYet, &mut buf), AccessStep::Done);
    assert_eq!(buf, [0x0e, 0x0f, 32, 33]);
    w.vm.set_reg(Register::DsBase, u64::MAX);
    let addr = Address::PhysicalSegOff { seg: Segment::Ds, off: 0x1fff };
    let mut access = MemAccess::new(addr, 3);
    assert_eq!(w.write_addr(&mut access, Walked::NotYet, &[1, 2, 3]), AccessStep::Failed);
    assert_eq!(access.done, 2);
    assert_eq!(w.read_phys::<u16>(PhysAddr(0x1ffe)), Some(0x0201));
}

#[test]
fn linear_accesses_ask_for_walks() {
    let mut w = fork();
    w.vm.set_reg(Register::GsBase, 0x7000_0000);
    let addr = Address::Virtual { seg: Segment::Gs, off: 0xffc, mode: PagingMode::Bits64, cr3: 7 };
    let data = [1u8, 2, 3, 4, 5, 6, 7, 8];
    let walk = |linear: u64| {
        AccessStep::Walk(WalkRequest { mode: PagingMode::Bits64, cr3: 7, linear: VirtAddr(linear) })
    };
    // The first page is at 0x1000, the second one at 0x10000
    let first = Walked::To { page: PhysAddr(0x1000), offset: 0xffc };
    let second = Walked::To { page: PhysAddr(0x10000), offset: 0 };
    let mut access = MemAccess::new(addr, 8);
    assert_eq!(w.write_addr(&mut access, Walked::NotYet, &data), walk(0x7000_0ffc));
    assert_eq!(w.write_addr(&mut access, first, &data), walk(0x7000_1000));
    assert_eq!(access.done, 4);
    assert_eq!(w.write_addr(&mut access, second, &data), AccessStep::Done);
    assert_eq!(w.read_phys::<u32>(PhysAddr(0x1ffc)), Some(0x04030201));
    assert_eq!(w.read_phys::<u32>(PhysAddr(0x10000)), Some(0x08070605));
    // The same walks read back what was written
    let mut buf = [0u8; 8];
    let mut access = MemAccess::new(addr, 8);
    assert_eq!(w.read_addr(&mut access, Walked::NotYet, &mut buf), walk(0x7000_0ffc));
    assert_eq!(w.read_addr(&mut access, first, &mut buf), walk(0x7000_1000));
    assert_eq!(w.read_addr(&mut access, second, &mut buf), AccessStep::Done);
    assert_eq!(buf, data);
}

#[test]
fn linear_accesses_fail_with_their_walks() {
    let mut w = fork();
    let addr = Address::Linear { addr: u64::MAX, mode: PagingMode::Bits32, cr3: 0 };
    let mut buf = [0u8; 2];
    let mut access = MemAccess::new(addr, 2);
    assert!(matches!(w.read_addr(&mut access, Walked::NotYet, &mut buf), AccessStep::Walk(_)));
    let to = Walked::To { page: PhysAddr(0x1000), offset: 0xfff };
    let wrapped = WalkRequest { mode: PagingMode::Bits32, cr3: 0, linear: VirtAddr(0) };
    assert_eq!(w.read_addr(&mut access, to, &mut buf), AccessStep::Walk(wrapped));
    assert_eq!(w.read_addr(&mut access, Walked::Failed, &mut buf), AccessStep::Failed);
    assert_eq!(buf, [(32 + 0xfff) as u8, 0]);
    // A walk to memory that is missing
    let missing = Walked::To { page: PhysAddr(0x9000), offset: 0 };
    assert_eq!(w.read_addr(&mut access, missing, &mut buf), AccessStep::Failed);
    let mut empty = MemAccess::new(addr, 0);
    assert_eq!(w.read_addr(&mut empty, Walked::NotYet, &mut []), AccessStep::Done);
}

#[test]
fn virtual_accesses_need_paging() {
    let mut w = fork();
    assert!(w.read_virt::<u64>(VirtAddr(8)).is_none());
    assert!(w.write_virt_cr3_from(VirtAddr(8), 3, 1).is_none());
    w.vm.set_reg(Register::Cr0, 1 << 31);
    w.vm.set_reg(Register::Cr3, 0x5000);
    let linear = |addr: u64, cr3: u64| Address::Linear { addr, mode: PagingMode::Bits32, cr3 };
    let access = |addr: Address, len: usize| Some(MemAccess { addr, len, done: 0 });
    assert_eq!(w.read_virt::<u64>(VirtAddr(8)), access(linear(8, 0x5000), 8));
    assert_eq!(w.read_virt_cr3::<u16>(VirtAddr(8), 1), access(linear(8, 1), 2));
    assert_eq!(w.read_virt_into(VirtAddr(9), 5), access(linear(9, 0x5000), 5));
    assert_eq!(w.read_virt_cr3_into(VirtAddr(9), 5, 2), access(linear(9, 2), 5));
    assert_eq!(w.write_virt_cr3_from(VirtAddr(9), 6, 3), access(linear(9, 3), 6));
}

#[test]
fn accesses_are_checked_beforehand() {
    let mut b = backing();
    b.phys_ranges.insert(0x2000, PhysRange { offset: 5, end: 0x2fff });
    b.phys_ranges.insert(u64::MAX - 4095, PhysRange { offset: 0, end: u64::MAX });
    let w: Worker<()> = Worker::from_net(Arc::new(b), Rng { seed: 1 });
    assert!(w.can_access(0x1ff0, 16));
    assert!(!w.can_access(0x1ff0, 17));
    assert!(w.can_access(u64::MAX - 1, 1));
    assert!(!w.can_access(u64::MAX - 1, 2));
    let physical = MemAccess::new(Address::PhysicalLinear { addr: 0x1ff0 }, 17);
    assert!(!w.can_step(&physical, Walked::NotYet));
    let addr = Address::Linear { addr: 0, mode: PagingMode::Bits64, cr3: 0 };
    let linear = MemAccess::new(addr, 17);
    assert!(w.can_step(&linear, Walked::NotYet));
    let near = Walked::To { page: PhysAddr(0x1000), offset: 0xff0 };
    assert!(w.can_step(&linear, near));
    let misplaced = Walked::To { page: PhysAddr(0x2000), offset: 0 };
    assert!(!w.can_step(&linear, misplaced));
}

#[test]
fn physical_accesses_by_address_wrap_around() {
    let mut b = backing();
    b.phys_ranges.insert(u64::MAX - 4095, PhysRange { offset: 0, end: u64::MAX });
    let mut w: Worker<()> = Worker::from_net(Arc::new(b), Rng { seed: 1 });
    let addr = Address::PhysicalLinear { addr: u64::MAX };
    let mut access = MemAccess::new(addr, 2);
    assert_eq!(w.write_addr(&mut access, Walked::NotYet, &[7, 8]), AccessStep::Done);
    assert_eq!(w.read_phys::<u8>(PhysAddr(0)), Some(8));
    let mut buf = [0u8; 2];
    let mut access = MemAccess::new(addr, 2);
    assert_eq!(w.read_addr(&mut access, Walked::NotYet, &mut buf), AccessStep::Done);
    assert_eq!(buf, [7, 8]);
}

#[test]
fn segments_add_up_to_linear_addresses() {
    let mut w = fork();
    w.vm.set_reg(Register::FsBase, 0xff0);
    let mut seg = [0u8; 32];
    let mut flat = [0u8; 32];
    let mut a = MemAccess::new(Address::PhysicalSegOff { seg: Segment::Fs, off: 8 }, 32);
    let mut b = MemAccess::new(Address::PhysicalLinear { addr: 0xff8 }, 32);
    assert_eq!(w.read_addr(&mut a, Walked::NotYet, &mut seg), AccessStep::Done);
    assert_eq!(w.read_addr(&mut b, Walked::NotYet, &mut flat), AccessStep::Done);
    assert_eq!(seg, flat);
    let mut direct = [0u8; 32];
    assert_eq!(w.read_phys_into(PhysAddr(0xff8), &mut direct), Some(()));
    assert_eq!(direct, flat);
    let (mode, cr3) = (PagingMode::Bits64, 3);
    let mut a = MemAccess::new(Address::Virtual { seg: Segment::Fs, off: 8, mode, cr3 }, 32);
    let mut b = MemAccess::new(Address::Linear { addr: 0xff8, mode, cr3 }, 32);
    let asked = w.write_addr(&mut a, Walked::NotYet, &seg);
    assert_eq!(asked, w.write_addr(&mut b, Walked::NotYet, &seg));
    assert!(matches!(asked, AccessStep::Walk(_)));
}

#[test]
fn failed_writes_keep_what_they_wrote() {
    let mut w = fork();
    let addr = Address::Linear { addr: 0x8ffe, mode: PagingMode::Bits64, cr3: 0 };
    let mut access = MemAccess::new(addr, 4);
    let data = [1u8, 2, 3, 4];
    w.write_addr(&mut access, Walked::NotYet, &data);
    let to = Walked::To { page: PhysAddr(0x10000), offset: 0xffe };
    assert!(matches!(w.write_addr(&mut access, to, &data), AccessStep::Walk(_)));
    assert_eq!(w.write_addr(&mut access, Walked::Failed, &data), AccessStep::Failed);
    assert_eq!(access.done, 2);
    assert_eq!(w.read_phys::<u16>(PhysAddr(0x10ffe)), Some(0x0201));
    assert_eq!(w.read_phys::<u8>(PhysAddr(0x10ffd)), Some((48 + 0xffd) as u8));
}

#[test]
fn of_bytes_in_one_place_the_last_one_stays() {
    let mut w = fork();
    let addr = Address::Linear { addr: 0x8fff, mode: PagingMode::Bits64, cr3: 0 };
    let mut access = MemAccess::new(addr, 2);
    w.write_addr(&mut access, Walked::NotYet, &[5, 6]);
    w.write_addr(&mut access, Walked::To { page: PhysAddr(0), offset: 0xfff }, &[5, 6]);
    let step = w.write_addr(&mut access, Walked::To { page: PhysAddr(0), offset: 0xfff }, &[5, 6]);
    assert_eq!(step, AccessStep::Done);
    assert_eq!(w.read_phys::<u8>(PhysAddr(0xfff)), Some(6));
}
