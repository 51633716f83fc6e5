use snapshotted_app::addr_map::AddrMap;
use snapshotted_app::bytes::{decode, encode, read_u32, read_u64};
use snapshotted_app::primitive::{from_bytes, Primitive};
use snapshotted_app::regs::{GuestRegs, Register};
use snapshotted_app::rng::Rng;
use snapshotted_app::stats::Statistics;

#[test]
fn bytes_are_little_endian() {
    assert_eq!(encode(0x0102, 4), vec![2, 1, 0, 0]);
    assert_eq!(encode(0x1_0000_0001, 2), vec![1, 0]);
    assert_eq!(decode(&[9, 1, 2, 9], 1, 2), 0x0201);
    assert_eq!(read_u32(&[0xff, 0x78, 0x56, 0x34, 0x12], 1), 0x12345678);
    assert_eq!(read_u64(&[8, 7, 6, 5, 4, 3, 2, 1], 0), 0x0102030405060708);
    assert_eq!(decode(&[0xff; 16], 0, 16), u128::MAX);
    assert_eq!(decode(&[], 0, 0), 0);
}

#[test]
fn primitives_cast_as_memory_holds_them() {
    assert_eq!(0x12u8.cast(), vec![0x12]);
    assert_eq!(0x1234u16.cast(), vec![0x34, 0x12]);
    assert_eq!(0x12345678u32.cast(), vec![0x78, 0x56, 0x34, 0x12]);
    assert_eq!((-1i8).cast(), vec![0xff]);
    assert_eq!((-2i16).cast(), vec![0xfe, 0xff]);
    assert_eq!(i32::MIN.cast(), vec![0, 0, 0, 0x80]);
    assert_eq!((-1i64).cast(), vec![0xff; 8]);
    assert_eq!(i128::MIN.cast()[15], 0x80);
    assert_eq!(u128::size(), 16);
    assert_eq!(i16::size(), 2);
}

#[test]
fn primitives_survive_a_round_trip() {
    for v in [i64::MIN, -1, 0, 1, i64::MAX] {
        assert_eq!(from_bytes::<i64>(&v.cast()), v);
        assert_eq!(v.cast(), v.to_le_bytes().to_vec());
    }
    for v in [i128::MIN, -5, i128::MAX] {
        assert_eq!(from_bytes::<i128>(&v.cast()), v);
    }
    for v in [0u64, 1, u64::MAX, 0xdead_beef_1234_5678] {
        assert_eq!(from_bytes::<u64>(&v.cast()), v);
        assert_eq!(v.cast(), v.to_le_bytes().to_vec());
    }
    let mut x: u32 = 7;
    x.cast_mut(&[1, 0, 0, 1]);
    assert_eq!(x, 0x01000001);
    let mut y: i8 = 7;
    y.cast_mut(&[0x80]);
    assert_eq!(y, -128);
}

#[test]
fn xorshift_numbers() {
    let mut rng = Rng { seed: 1 };
    assert_eq!(rng.rand(), 1);
    assert_eq!(rng.rand(), 0x0100_0800_0000_2001);
    let mut rng = Rng { seed: 0x8000_0000_0000_0000 };
    rng.rand();
    assert_eq!(rng.seed, 0x8000_4000_0000_0000);
}

#[test]
fn new_rng_skips_a_thousand_numbers() {
    let mut rng = Rng::new(3, 0x1_2345_6789);
    assert_eq!(rng.rand(), 0x1b8c_e5be_f021_c257);
    assert_eq!(rng.rand(), 0x3508_6827_55b6_4662);
}

#[test]
fn rng_runs_dry_from_zero_only() {
    let mut rng = Rng::new(0, 0);
    assert_eq!(rng.rand(), 0);
    assert_eq!(rng.seed, 0);
    let mut other = Rng::new(0, 1);
    for _ in 0..100 {
        assert_ne!(other.rand(), 0);
    }
}

#[test]
fn statistics_sync_and_start_over() {
    let mut worker = Statistics { fuzz_cases: 1, reset_cycles: 2, total_cycles: 3, vm_cycles: 4, vmexits: 5 };
    let mut master = Statistics { fuzz_cases: 10, reset_cycles: 20, total_cycles: 30, vm_cycles: 40, vmexits: 50 };
    assert!(master.has_room_for(&worker));
    worker.sync_into(&mut master);
    assert_eq!(master.fuzz_cases, 11);
    assert_eq!(master.reset_cycles, 22);
    assert_eq!(master.total_cycles, 33);
    assert_eq!(master.vm_cycles, 44);
    assert_eq!(master.vmexits, 55);
    assert_eq!(worker.fuzz_cases + worker.reset_cycles + worker.total_cycles, 0);
    assert_eq!(worker.vm_cycles + worker.vmexits, 0);
    worker.sync_into(&mut master);
    assert_eq!(master.fuzz_cases, 11);
    worker.vmexits = u64::MAX;
    assert!(!master.has_room_for(&worker));
}

#[test]
fn statistics_synced_in_parts() {
    let one = Statistics { fuzz_cases: 1, ..Statistics::default() };
    let two = Statistics { fuzz_cases: 2, vmexits: 7, ..Statistics::default() };
    let mut parts = Statistics::default();
    let mut worker = one;
    worker.sync_into(&mut parts);
    worker = two;
    worker.sync_into(&mut parts);
    assert_eq!(parts.fuzz_cases, 3);
    assert_eq!(parts.vmexits, 7);
}

#[test]
fn registers_are_independent() {
    let mut regs = GuestRegs::new();
    regs.set_reg(Register::Rax, 1);
    regs.set_reg(Register::Dr7, 2);
    regs.set_reg(Register::GsBase, 3);
    regs.set_reg(Register::Rax, 4);
    assert_eq!(regs.reg(Register::Rax), 4);
    assert_eq!(regs.reg(Register::Dr7), 2);
    assert_eq!(regs.reg(Register::GsBase), 3);
    assert_eq!(regs.reg(Register::Gs), 0);
}

#[test]
fn address_map_finds_the_entry_below() {
    let mut map: AddrMap<u32> = AddrMap::new();
    assert!(map.floor(5).is_none());
    map.insert(0x2000, 2);
    map.insert(0x1000, 1);
    map.insert(0x3000, 3);
    map.insert(0x2000, 22);
    assert_eq!(map.get(0x2000), Some(&22));
    assert_eq!(map.get(0x2001), None);
    assert_eq!(map.floor(0xfff), None);
    assert_eq!(map.floor(0x1000), Some((0x1000, &1)));
    assert_eq!(map.floor(0x2fff), Some((0x2000, &22)));
    assert_eq!(map.floor(u64::MAX), Some((0x3000, &3)));
    assert_eq!(map.get(0x3000), Some(&3));
}
